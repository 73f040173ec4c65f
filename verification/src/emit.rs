//! The emitter: from a script to the native wrapper source and the binding source.

use vstd::prelude::*;
use crate::ast::{Names, Probe, ProbeView, Provider, ProviderView, Script, ScriptView, collapse, lower_case, upper_case};
use crate::parser::{parse, script_of, Failure, ParseError};
use crate::text::{decimal, decimal_text, join, join_texts, texts};
use crate::types::{foreign_text, foreign_type_of, map_type, supported, UnsupportedTypeError};

verus! {

/// The two sources that one pass generates.
#[derive(Debug, PartialEq)]
pub struct Artifacts {
    /// The native wrapper source.
    pub native: String,
    /// The binding source.
    pub binding: String,
}

/// Why a pass generated nothing.
#[derive(Debug, PartialEq)]
pub enum EmitError {
    /// The text is malformed.
    Parse(ParseError),
    /// A probe has an argument of a type that the table lacks.
    UnsupportedType(UnsupportedTypeError),
    /// Two providers or two probes would share a name in the sources.
    Collision(NameCollision),
}

/// Why a script or a text gives no sources.
pub enum Rejection {
    /// The text is malformed: where and on what the grammar fails.
    Malformed(Failure),
    /// The first spelling that the table lacks.
    UnsupportedType(Seq<char>),
    /// The first name that the sources would define twice.
    Collision(Seq<char>),
}

/// A name that the sources would define twice.
#[derive(Debug, PartialEq)]
pub struct NameCollision {
    /// The name of the module, or the symbol of the wrapper.
    pub name: String,
}

/// The name of the argument at position `i`.
pub open spec fn argument_name(i: nat) -> Seq<char> {
    "arg"@ + decimal(i)
}

/// The names of `n` arguments, in order.
pub open spec fn argument_names(n: nat) -> Seq<Seq<char>> {
    Seq::new(n, |i: int| argument_name(i as nat))
}

/// A parameter of a native wrapper: the type as it is spelled, and the argument's name.
pub open spec fn native_parameter(spelling: Seq<char>, i: nat) -> Seq<char> {
    spelling + " arg"@ + decimal(i)
}

/// The parameters of a native wrapper, one for each argument, in order.
pub open spec fn native_parameters(arguments: Seq<Seq<char>>) -> Seq<Seq<char>> {
    Seq::new(arguments.len(), |i: int| native_parameter(arguments[i], i as nat))
}

/// A parameter in the binding: the argument's name, and the foreign type of its spelling.
pub open spec fn binding_parameter(spelling: Seq<char>, i: nat) -> Seq<char> {
    "arg"@ + decimal(i) + ": "@ + foreign_text(foreign_type_of(spelling))
}

/// The parameters in the binding, one for each argument, in order.
pub open spec fn binding_parameters(arguments: Seq<Seq<char>>) -> Seq<Seq<char>> {
    Seq::new(arguments.len(), |i: int| binding_parameter(arguments[i], i as nat))
}

/// The first spelling from position `i` on that the table lacks.
pub open spec fn first_unsupported(arguments: Seq<Seq<char>>, i: int) -> Option<Seq<char>>
    decreases arguments.len() - i,
{
    if i < 0 || i >= arguments.len() {
        None
    } else if !supported(arguments[i]) {
        Some(arguments[i])
    } else {
        first_unsupported(arguments, i + 1)
    }
}

/// The first unsupported spelling among the arguments of the probes from position `i` on.
pub open spec fn unsupported_in_probes(probes: Seq<ProbeView>, i: int) -> Option<Seq<char>>
    decreases probes.len() - i,
{
    if i < 0 || i >= probes.len() {
        None
    } else if first_unsupported(probes[i].arguments, 0) is Some {
        first_unsupported(probes[i].arguments, 0)
    } else {
        unsupported_in_probes(probes, i + 1)
    }
}

/// The first unsupported spelling among the arguments of the probes of the
/// providers from position `i` on.
pub open spec fn unsupported_in_providers(providers: Seq<ProviderView>, i: int) -> Option<
    Seq<char>,
>
    decreases providers.len() - i,
{
    if i < 0 || i >= providers.len() {
        None
    } else if unsupported_in_probes(providers[i].probes, 0) is Some {
        unsupported_in_probes(providers[i].probes, 0)
    } else {
        unsupported_in_providers(providers, i + 1)
    }
}

/// The symbol of a native wrapper, from the native names of the provider and the probe.
pub open spec fn symbol_of(provider: Seq<char>, probe: Seq<char>) -> Seq<char> {
    provider + "_probe_"@ + probe
}

/// The name of a tracing macro, from the macro names of the provider and the probe.
pub open spec fn macro_of(provider: Seq<char>, probe: Seq<char>) -> Seq<char> {
    provider + "_"@ + probe
}

/// The symbol of the native wrapper of a probe, from the names as they were written.
pub open spec fn symbol(provider: Seq<char>, probe: Seq<char>) -> Seq<char> {
    symbol_of(lower_case(collapse(provider)), lower_case(collapse(probe)))
}

/// The name of the tracing macro of a probe, from the names as they were written.
pub open spec fn macro_name(provider: Seq<char>, probe: Seq<char>) -> Seq<char> {
    macro_of(upper_case(collapse(provider)), upper_case(collapse(probe)))
}

/// Whether the name at position `j` stands at an earlier position too.
pub open spec fn repeated_at(names: Seq<Seq<char>>, j: int) -> bool {
    exists|i: int| 0 <= i < j && names[i] == names[j]
}

/// The first name from position `j` on that stands at an earlier position too.
pub open spec fn first_repeated(names: Seq<Seq<char>>, j: int) -> Option<Seq<char>>
    decreases names.len() - j,
{
    if j < 0 || j >= names.len() {
        None
    } else if repeated_at(names, j) {
        Some(names[j])
    } else {
        first_repeated(names, j + 1)
    }
}

/// The names of the modules of the providers, in order.
pub open spec fn module_names(providers: Seq<ProviderView>) -> Seq<Seq<char>> {
    Seq::new(providers.len(), |i: int| lower_case(collapse(providers[i].name)))
}

/// The symbols of the wrappers of a provider's probes, in order.
pub open spec fn provider_symbols(provider: ProviderView) -> Seq<Seq<char>> {
    Seq::new(provider.probes.len(), |i: int| symbol(provider.name, provider.probes[i].name))
}

/// The symbols of the wrappers of the first `n` providers, in order.
pub open spec fn symbols(providers: Seq<ProviderView>, n: int) -> Seq<Seq<char>>
    decreases n,
{
    if n <= 0 {
        Seq::empty()
    } else {
        symbols(providers, n - 1) + provider_symbols(providers[n - 1])
    }
}

/// The first name that the sources of a script would define twice: the name
/// of a module that an earlier provider has too, or else the symbol of a
/// wrapper that an earlier probe has too.
pub open spec fn first_collision(script: ScriptView) -> Option<Seq<char>> {
    if first_repeated(module_names(script.providers), 0) is Some {
        first_repeated(module_names(script.providers), 0)
    } else {
        first_repeated(symbols(script.providers, script.providers.len() as int), 0)
    }
}

/// A native wrapper: a function with the symbol of the two native names,
/// which hands its parameters, by their names, to the macro of the two macro names.
pub open spec fn native_function_of(
    provider: Seq<char>,
    probe: Seq<char>,
    macro_provider: Seq<char>,
    macro_probe: Seq<char>,
    parameters: Seq<char>,
    names: Seq<char>,
) -> Seq<char> {
    "\nvoid "@ + symbol_of(provider, probe) + "("@ + parameters + ") {\n    "@ + macro_of(
        macro_provider,
        macro_probe,
    ) + "("@ + names + ");\n}\n"@
}

/// The declaration of a native wrapper in the binding.
pub open spec fn declaration_of(
    provider: Seq<char>,
    probe: Seq<char>,
    parameters: Seq<char>,
) -> Seq<char> {
    "    #[doc(hidden)]\n    fn "@ + symbol_of(provider, probe) + "("@ + parameters + ");"@
}

/// A function of the binding: it has the binding name of the probe, and calls
/// the wrapper with the symbol of the two native names.
pub open spec fn binding_function_of(
    binding_provider: Seq<char>,
    binding_probe: Seq<char>,
    provider: Seq<char>,
    probe: Seq<char>,
    parameters: Seq<char>,
    names: Seq<char>,
) -> Seq<char> {
    "    /// Call the `"@ + binding_probe + "` probe of the `"@ + binding_provider
        + "` provider.\n    pub fn r#"@ + binding_probe + "("@ + parameters
        + ") {\n        unsafe { super::"@ + symbol_of(provider, probe) + "("@ + names
        + ") };\n    }"@
}

/// The module of a provider in the binding: it has the binding name of the
/// provider, and holds `body`.
pub open spec fn module_of(binding_provider: Seq<char>, body: Seq<char>) -> Seq<char> {
    "/// Probes for the `"@ + binding_provider + "` provider.\npub mod r#"@ + binding_provider
        + " {\n    use std::os::raw::*;\n\n"@ + body + "\n}"@
}

/// The native wrapper of a probe: a function that hands its parameters to the tracing macro.
pub open spec fn native_function(provider: Seq<char>, probe: ProbeView) -> Seq<char> {
    native_function_of(
        lower_case(collapse(provider)),
        lower_case(collapse(probe.name)),
        upper_case(collapse(provider)),
        upper_case(collapse(probe.name)),
        join(native_parameters(probe.arguments), ", "@),
        join(argument_names(probe.arguments.len()), ", "@),
    )
}

/// The declaration of a probe's native wrapper in the binding.
pub open spec fn declaration(provider: Seq<char>, probe: ProbeView) -> Seq<char> {
    declaration_of(
        lower_case(collapse(provider)),
        lower_case(collapse(probe.name)),
        join(binding_parameters(probe.arguments), ", "@),
    )
}

/// The function of the binding that calls a probe.
pub open spec fn binding_function(provider: Seq<char>, probe: ProbeView) -> Seq<char> {
    binding_function_of(
        lower_case(collapse(provider)),
        lower_case(collapse(probe.name)),
        lower_case(collapse(provider)),
        lower_case(collapse(probe.name)),
        join(binding_parameters(probe.arguments), ", "@),
        join(argument_names(probe.arguments.len()), ", "@),
    )
}

/// The native wrappers of a provider's probes, one by one.
pub open spec fn native_functions(provider: ProviderView) -> Seq<Seq<char>> {
    Seq::new(provider.probes.len(), |i: int| native_function(provider.name, provider.probes[i]))
}

/// The declarations of a provider's probes, one by one.
pub open spec fn declarations(provider: ProviderView) -> Seq<Seq<char>> {
    Seq::new(provider.probes.len(), |i: int| declaration(provider.name, provider.probes[i]))
}

/// The binding functions of a provider's probes, one by one.
pub open spec fn binding_functions(provider: ProviderView) -> Seq<Seq<char>> {
    Seq::new(provider.probes.len(), |i: int| binding_function(provider.name, provider.probes[i]))
}

/// The native wrappers of a provider's probes, in order.
pub open spec fn native_part(provider: ProviderView) -> Seq<char> {
    join(native_functions(provider), Seq::empty())
}

/// The declarations of a provider's probes, in order.
pub open spec fn declaration_part(provider: ProviderView) -> Seq<char> {
    join(declarations(provider), "\n\n"@)
}

/// The module of a provider in the binding, with the functions of its probes, in order.
pub open spec fn module_part(provider: ProviderView) -> Seq<char> {
    module_of(lower_case(collapse(provider.name)), join(binding_functions(provider), "\n\n"@))
}

/// The native wrappers of the providers, one text for each provider.
pub open spec fn native_parts(providers: Seq<ProviderView>) -> Seq<Seq<char>> {
    Seq::new(providers.len(), |i: int| native_part(providers[i]))
}

/// The declarations of the providers, one text for each provider.
pub open spec fn declaration_parts(providers: Seq<ProviderView>) -> Seq<Seq<char>> {
    Seq::new(providers.len(), |i: int| declaration_part(providers[i]))
}

/// The modules of the providers, one text for each provider.
pub open spec fn module_parts(providers: Seq<ProviderView>) -> Seq<Seq<char>> {
    Seq::new(providers.len(), |i: int| module_part(providers[i]))
}

/// The native wrapper source: the directive that brings in the header, then
/// the wrappers of the providers, in order. `header` is the operand of the
/// directive as it is to be written, quotes included.
pub open spec fn native_source(header: Seq<char>, script: ScriptView) -> Seq<char> {
    "#include "@ + header + "\n\n"@ + join(native_parts(script.providers), "\n"@)
}

/// The binding source: the declarations of all wrappers, then one module for
/// each provider, in order.
pub open spec fn binding_source(script: ScriptView) -> Seq<char> {
    "/// Bindings from Rust to the C FFI small library that calls the\n/// probes.\n\nuse std::os::raw::*;\n\nextern \"C\" {\n"@
        + join(declaration_parts(script.providers), "\n\n"@) + "\n}\n\n"@ + join(
        module_parts(script.providers),
        "\n\n"@,
    ) + "\n"@
}

/// Writes the names of `n` arguments, separated by commas.
pub fn argument_names_text(n: usize) -> (r: String)
    ensures
        r@ == join(argument_names(n as nat), ", "@),
{
    let mut items: Vec<String> = Vec::new();
    let mut i: usize = 0;
    while i < n
        invariant
            i <= n,
            items@.len() == i,
            forall|j: int| 0 <= j < i ==> (#[trigger] items@[j])@ == argument_name(j as nat),
        decreases n - i,
    {
        let mut item = String::from_str("arg");
        let number = decimal_text(i);
        item.append(number.as_str());
        items.push(item);
        i += 1;
    }
    proof {
        assert(texts(items@) =~= argument_names(n as nat));
    }
    join_texts(&items, ", ")
}

impl Probe {
    /// The parameters of the probe's native wrapper: each argument's type as
    /// it is spelled, and its name, separated by commas.
    pub fn arguments_for_c(&self) -> (r: String)
        ensures
            r@ == join(native_parameters(self@.arguments), ", "@),
    {
        let n = self.arguments.len();
        let mut items: Vec<String> = Vec::new();
        let mut i: usize = 0;
        while i < n
            invariant
                n == self.arguments@.len(),
                i <= n,
                items@.len() == i,
                forall|j: int|
                    0 <= j < i ==> (#[trigger] items@[j])@ == native_parameter(
                        self.arguments@[j]@,
                        j as nat,
                    ),
            decreases n - i,
        {
            let mut item = String::from_str(self.arguments[i].as_str());
            item.append(" arg");
            let number = decimal_text(i);
            item.append(number.as_str());
            items.push(item);
            i += 1;
        }
        proof {
            assert(texts(items@) =~= native_parameters(self@.arguments));
        }
        join_texts(&items, ", ")
    }

    /// The parameters of the probe in the binding: each argument's name and
    /// foreign type, separated by commas. Where the table lacks the type of an
    /// argument, the first such spelling is the error.
    pub fn arguments_for_c_from_rust(&self) -> (r: Result<String, UnsupportedTypeError>)
        ensures
            match r {
                Ok(text) => first_unsupported(self@.arguments, 0) is None && text@ == join(
                    binding_parameters(self@.arguments),
                    ", "@,
                ),
                Err(e) => first_unsupported(self@.arguments, 0) == Some(e.spelling@),
            },
    {
        let n = self.arguments.len();
        let mut items: Vec<String> = Vec::new();
        let mut i: usize = 0;
        while i < n
            invariant
                n == self.arguments@.len(),
                i <= n,
                items@.len() == i,
                first_unsupported(self@.arguments, 0) == first_unsupported(
                    self@.arguments,
                    i as int,
                ),
                forall|j: int|
                    0 <= j < i ==> (#[trigger] items@[j])@ == binding_parameter(
                        self.arguments@[j]@,
                        j as nat,
                    ),
            decreases n - i,
        {
            let foreign = match map_type(self.arguments[i].as_str()) {
                Ok(t) => t,
                Err(e) => {
                    return Err(e);
                },
            };
            let mut item = String::from_str("arg");
            let number = decimal_text(i);
            item.append(number.as_str());
            item.append(": ");
            let written = foreign.text();
            item.append(written.as_str());
            items.push(item);
            i += 1;
        }
        proof {
            assert(texts(items@) =~= binding_parameters(self@.arguments));
        }
        Ok(join_texts(&items, ", "))
    }
}

/// Writes the symbol of a native wrapper, from the native names of the provider and the probe.
pub fn symbol_text(provider: &str, probe: &str) -> (r: String)
    ensures
        r@ == symbol_of(provider@, probe@),
{
    let mut out = String::from_str(provider);
    out.append("_probe_");
    out.append(probe);
    out
}

/// Writes the name of a tracing macro, from the macro names of the provider and the probe.
pub fn macro_text(provider: &str, probe: &str) -> (r: String)
    ensures
        r@ == macro_of(provider@, probe@),
{
    let mut out = String::from_str(provider);
    out.append("_");
    out.append(probe);
    out
}

/// Writes a native wrapper, from the native names and the macro names of the
/// provider and the probe, the parameters and the names of the arguments.
pub fn native_function_text(
    provider: &str,
    probe: &str,
    macro_provider: &str,
    macro_probe: &str,
    parameters: &str,
    names: &str,
) -> (r: String)
    ensures
        r@ == native_function_of(
            provider@,
            probe@,
            macro_provider@,
            macro_probe@,
            parameters@,
            names@,
        ),
{
    let mut out = String::from_str("\nvoid ");
    let name = symbol_text(provider, probe);
    out.append(name.as_str());
    out.append("(");
    out.append(parameters);
    out.append(") {\n    ");
    let traced = macro_text(macro_provider, macro_probe);
    out.append(traced.as_str());
    out.append("(");
    out.append(names);
    out.append(");\n}\n");
    out
}

/// Writes the declaration of a native wrapper, from the native names of the
/// provider and the probe and the parameters in the binding.
pub fn declaration_text(provider: &str, probe: &str, parameters: &str) -> (r: String)
    ensures
        r@ == declaration_of(provider@, probe@, parameters@),
{
    let mut out = String::from_str("    #[doc(hidden)]\n    fn ");
    let name = symbol_text(provider, probe);
    out.append(name.as_str());
    out.append("(");
    out.append(parameters);
    out.append(");");
    out
}

/// Writes a function of the binding, from the binding names and the native
/// names of the provider and the probe, the parameters in the binding and the
/// names of the arguments.
pub fn binding_function_text(
    binding_provider: &str,
    binding_probe: &str,
    provider: &str,
    probe: &str,
    parameters: &str,
    names: &str,
) -> (r: String)
    ensures
        r@ == binding_function_of(
            binding_provider@,
            binding_probe@,
            provider@,
            probe@,
            parameters@,
            names@,
        ),
{
    let mut out = String::from_str("    /// Call the `");
    out.append(binding_probe);
    out.append("` probe of the `");
    out.append(binding_provider);
    out.append("` provider.\n    pub fn r#");
    out.append(binding_probe);
    out.append("(");
    out.append(parameters);
    out.append(") {\n        unsafe { super::");
    let name = symbol_text(provider, probe);
    out.append(name.as_str());
    out.append("(");
    out.append(names);
    out.append(") };\n    }");
    out
}

/// Writes the module of a provider in the binding, from the binding name of
/// the provider and what the module holds.
pub fn module_text(binding_provider: &str, body: &str) -> (r: String)
    ensures
        r@ == module_of(binding_provider@, body@),
{
    let mut out = String::from_str("/// Probes for the `");
    out.append(binding_provider);
    out.append("` provider.\npub mod r#");
    out.append(binding_provider);
    out.append(" {\n    use std::os::raw::*;\n\n");
    out.append(body);
    out.append("\n}");
    out
}

/// Finds the first string of a vector that stands at an earlier position too.
pub fn find_repeated(names: &Vec<String>) -> (r: Option<String>)
    ensures
        match r {
            Some(name) => first_repeated(texts(names@), 0) == Some(name@),
            None => first_repeated(texts(names@), 0) is None,
        },
{
    let mut j: usize = 0;
    while j < names.len()
        invariant
            j <= names.len(),
            first_repeated(texts(names@), 0) == first_repeated(texts(names@), j as int),
        decreases names.len() - j,
    {
        let mut i: usize = 0;
        while i < j
            invariant
                i <= j < names.len(),
                first_repeated(texts(names@), 0) == first_repeated(texts(names@), j as int),
                forall|k: int| 0 <= k < i ==> texts(names@)[k] != texts(names@)[j as int],
            decreases j - i,
        {
            if names[i] == names[j] {
                assert(repeated_at(texts(names@), j as int)) by {
                    assert(texts(names@)[i as int] == texts(names@)[j as int]);
                }
                return Some(names[j].clone());
            }
            i += 1;
        }
        assert(!repeated_at(texts(names@), j as int));
        j += 1;
    }
    None
}

/// Finds the first name that the sources of a script would define twice.
pub fn collision(script: &Script) -> (r: Option<NameCollision>)
    ensures
        match r {
            Some(c) => first_collision(script@) == Some(c.name@),
            None => first_collision(script@) is None,
        },
{
    let n = script.providers.len();
    let mut modules: Vec<String> = Vec::new();
    let mut i: usize = 0;
    while i < n
        invariant
            n == script.providers@.len(),
            i <= n,
            modules@.len() == i,
            forall|j: int|
                0 <= j < i ==> (#[trigger] modules@[j])@ == lower_case(
                    collapse(script@.providers[j].name),
                ),
        decreases n - i,
    {
        let provider = &script.providers[i];
        assert(script@.providers[i as int] == provider@);
        modules.push(provider.name_for_rust());
        i += 1;
    }
    proof {
        assert(texts(modules@) =~= module_names(script@.providers));
    }
    match find_repeated(&modules) {
        Some(name) => {
            return Some(NameCollision { name });
        },
        None => {},
    }
    let mut names: Vec<String> = Vec::new();
    let mut i: usize = 0;
    proof {
        assert(texts(names@) =~= symbols(script@.providers, 0));
    }
    while i < n
        invariant
            n == script.providers@.len(),
            i <= n,
            texts(names@) == symbols(script@.providers, i as int),
        decreases n - i,
    {
        let provider = &script.providers[i];
        assert(script@.providers[i as int] == provider@);
        let ghost before = texts(names@);
        let prefix = provider.name_for_c();
        let m = provider.probes.len();
        let mut j: usize = 0;
        proof {
            assert(texts(names@) =~= before + provider_symbols(provider@).take(0));
        }
        while j < m
            invariant
                m == provider.probes@.len(),
                j <= m,
                prefix@ == lower_case(collapse(provider@.name)),
                texts(names@) == before + provider_symbols(provider@).take(j as int),
            decreases m - j,
        {
            let probe = &provider.probes[j];
            assert(provider@.probes[j as int] == probe@);
            let ghost so_far = texts(names@);
            let native = probe.name_for_c();
            names.push(symbol_text(prefix.as_str(), native.as_str()));
            proof {
                assert(texts(names@) =~= so_far.push(symbol(provider@.name, probe@.name)));
                assert(provider_symbols(provider@).take(j + 1) =~= provider_symbols(
                    provider@,
                ).take(j as int).push(symbol(provider@.name, probe@.name)));
                assert(texts(names@) =~= before + provider_symbols(provider@).take(j + 1));
            }
            j += 1;
        }
        proof {
            assert(provider_symbols(provider@).take(m as int) =~= provider_symbols(provider@));
        }
        i += 1;
    }
    match find_repeated(&names) {
        Some(name) => Some(NameCollision { name }),
        None => None,
    }
}

/// What one provider adds to the sources.
#[derive(Debug, PartialEq)]
pub struct Parts {
    /// Its native wrappers.
    pub native: String,
    /// The declarations of its wrappers in the binding.
    pub declarations: String,
    /// Its module in the binding.
    pub module: String,
}

/// Generates what one provider adds to the sources, its probes in order. Where
/// the table lacks the type of an argument, the first such spelling is the error.
pub fn emit_provider(provider: &Provider) -> (r: Result<Parts, UnsupportedTypeError>)
    ensures
        match r {
            Ok(parts) => unsupported_in_probes(provider@.probes, 0) is None && parts.native@
                == native_part(provider@) && parts.declarations@ == declaration_part(provider@)
                && parts.module@ == module_part(provider@),
            Err(e) => unsupported_in_probes(provider@.probes, 0) == Some(e.spelling@),
        },
{
    let n = provider.probes.len();
    let native_name = provider.name_for_c();
    let macro_provider = provider.name_for_c_macro();
    let binding_name = provider.name_for_rust();
    let mut natives: Vec<String> = Vec::new();
    let mut declared: Vec<String> = Vec::new();
    let mut functions: Vec<String> = Vec::new();
    let mut i: usize = 0;
    while i < n
        invariant
            n == provider.probes@.len(),
            i <= n,
            natives@.len() == i,
            declared@.len() == i,
            functions@.len() == i,
            native_name@ == lower_case(collapse(provider@.name)),
            macro_provider@ == upper_case(collapse(provider@.name)),
            binding_name@ == lower_case(collapse(provider@.name)),
            unsupported_in_probes(provider@.probes, 0) == unsupported_in_probes(
                provider@.probes,
                i as int,
            ),
            forall|j: int|
                0 <= j < i ==> (#[trigger] natives@[j])@ == native_function(
                    provider@.name,
                    provider@.probes[j],
                ),
            forall|j: int|
                0 <= j < i ==> (#[trigger] declared@[j])@ == declaration(
                    provider@.name,
                    provider@.probes[j],
                ),
            forall|j: int|
                0 <= j < i ==> (#[trigger] functions@[j])@ == binding_function(
                    provider@.name,
                    provider@.probes[j],
                ),
        decreases n - i,
    {
        let probe = &provider.probes[i];
        assert(provider@.probes[i as int] == probe@);
        let parameters = match probe.arguments_for_c_from_rust() {
            Ok(text) => text,
            Err(e) => {
                return Err(e);
            },
        };
        let native_probe = probe.name_for_c();
        let macro_probe = probe.name_for_c_macro();
        let binding_probe = probe.name_for_rust();
        let native_parameters = probe.arguments_for_c();
        let names = argument_names_text(probe.arguments.len());
        natives.push(
            native_function_text(
                native_name.as_str(),
                native_probe.as_str(),
                macro_provider.as_str(),
                macro_probe.as_str(),
                native_parameters.as_str(),
                names.as_str(),
            ),
        );
        declared.push(
            declaration_text(native_name.as_str(), native_probe.as_str(), parameters.as_str()),
        );
        functions.push(
            binding_function_text(
                binding_name.as_str(),
                binding_probe.as_str(),
                native_name.as_str(),
                native_probe.as_str(),
                parameters.as_str(),
                names.as_str(),
            ),
        );
        i += 1;
    }
    proof {
        assert(texts(natives@) =~= native_functions(provider@));
        assert(texts(declared@) =~= declarations(provider@));
        assert(texts(functions@) =~= binding_functions(provider@));
    }
    let native = join_texts(&natives, "");
    proof {
        reveal_strlit("");
        assert(""@ =~= Seq::<char>::empty());
    }
    let declarations = join_texts(&declared, "\n\n");
    let body = join_texts(&functions, "\n\n");
    let module = module_text(binding_name.as_str(), body.as_str());
    Ok(Parts { native, declarations, module })
}

/// What a script and a header operand give: the first unsupported spelling
/// where the table lacks the type of an argument; else the first name that
/// the sources would define twice; else the two sources.
pub open spec fn emitted(header: Seq<char>, script: ScriptView) -> Result<
    (Seq<char>, Seq<char>),
    Rejection,
> {
    if unsupported_in_providers(script.providers, 0) is Some {
        Err(Rejection::UnsupportedType(unsupported_in_providers(script.providers, 0)->0))
    } else if first_collision(script) is Some {
        Err(Rejection::Collision(first_collision(script)->0))
    } else {
        Ok((native_source(header, script), binding_source(script)))
    }
}

/// Generates the two sources of a script, providers and probes in the order of
/// the script. `header` is the operand of the directive that brings in the
/// header, as it is to be written. Where the table lacks the type of an
/// argument, nothing is generated and the first such spelling is the error.
/// Where every type is supported and the sources would define a name twice,
/// nothing is generated and the first such name is the error.
pub fn emit(script: &Script, header: &str) -> (r: Result<Artifacts, EmitError>)
    ensures
        match r {
            Ok(artifacts) => emitted(header@, script@) == Ok::<(Seq<char>, Seq<char>), Rejection>(
                (artifacts.native@, artifacts.binding@),
            ),
            Err(EmitError::UnsupportedType(e)) => emitted(header@, script@) == Err::<
                (Seq<char>, Seq<char>),
                Rejection,
            >(Rejection::UnsupportedType(e.spelling@)),
            Err(EmitError::Collision(c)) => emitted(header@, script@) == Err::<
                (Seq<char>, Seq<char>),
                Rejection,
            >(Rejection::Collision(c.name@)),
            Err(EmitError::Parse(_)) => false,
        },
{
    let n = script.providers.len();
    let mut natives: Vec<String> = Vec::new();
    let mut declared: Vec<String> = Vec::new();
    let mut modules: Vec<String> = Vec::new();
    let mut i: usize = 0;
    while i < n
        invariant
            n == script.providers@.len(),
            i <= n,
            natives@.len() == i,
            declared@.len() == i,
            modules@.len() == i,
            unsupported_in_providers(script@.providers, 0) == unsupported_in_providers(
                script@.providers,
                i as int,
            ),
            forall|j: int|
                0 <= j < i ==> (#[trigger] natives@[j])@ == native_part(script@.providers[j]),
            forall|j: int|
                0 <= j < i ==> (#[trigger] declared@[j])@ == declaration_part(
                    script@.providers[j],
                ),
            forall|j: int|
                0 <= j < i ==> (#[trigger] modules@[j])@ == module_part(script@.providers[j]),
        decreases n - i,
    {
        let provider = &script.providers[i];
        assert(script@.providers[i as int] == provider@);
        match emit_provider(provider) {
            Ok(parts) => {
                natives.push(parts.native);
                declared.push(parts.declarations);
                modules.push(parts.module);
            },
            Err(e) => {
                return Err(EmitError::UnsupportedType(e));
            },
        }
        i += 1;
    }
    proof {
        assert(texts(natives@) =~= native_parts(script@.providers));
        assert(texts(declared@) =~= declaration_parts(script@.providers));
        assert(texts(modules@) =~= module_parts(script@.providers));
    }
    match collision(script) {
        Some(c) => {
            return Err(EmitError::Collision(c));
        },
        None => {},
    }
    let mut native = String::from_str("#include ");
    native.append(header);
    native.append("\n\n");
    let wrappers = join_texts(&natives, "\n");
    native.append(wrappers.as_str());
    let mut binding = String::from_str(
        "/// Bindings from Rust to the C FFI small library that calls the\n/// probes.\n\nuse std::os::raw::*;\n\nextern \"C\" {\n",
    );
    let externs = join_texts(&declared, "\n\n");
    binding.append(externs.as_str());
    binding.append("\n}\n\n");
    let all = join_texts(&modules, "\n\n");
    binding.append(all.as_str());
    binding.append("\n");
    Ok(Artifacts { native, binding })
}

/// What a text and a header operand give: where the text is malformed, where
/// and on what the grammar fails; else what its script gives.
pub open spec fn generated(text: Seq<char>, header: Seq<char>) -> Result<
    (Seq<char>, Seq<char>),
    Rejection,
> {
    match script_of(text) {
        Err(f) => Err(Rejection::Malformed(f)),
        Ok(script) => emitted(header, script),
    }
}

/// Whether the result `r` of a pass on `text` says what `outcome` says: the
/// same sources, or the same error with the same content.
pub open spec fn tells(
    r: Result<Artifacts, EmitError>,
    text: Seq<char>,
    outcome: Result<(Seq<char>, Seq<char>), Rejection>,
) -> bool {
    match r {
        Ok(artifacts) => outcome == Ok::<(Seq<char>, Seq<char>), Rejection>(
            (artifacts.native@, artifacts.binding@),
        ),
        Err(EmitError::Parse(e)) => outcome is Err && outcome->Err_0 is Malformed && e.reports(
            outcome->Err_0->Malformed_0,
            text,
        ),
        Err(EmitError::UnsupportedType(e)) => outcome == Err::<(Seq<char>, Seq<char>), Rejection>(
            Rejection::UnsupportedType(e.spelling@),
        ),
        Err(EmitError::Collision(c)) => outcome == Err::<(Seq<char>, Seq<char>), Rejection>(
            Rejection::Collision(c.name@),
        ),
    }
}

/// Parses a text and generates its two sources. What comes out, sources or
/// error, is what `generated` gives for the text and the header operand.
pub fn generate(text: &str, header: &str) -> (r: Result<Artifacts, EmitError>)
    ensures
        tells(r, text@, generated(text@, header@)),
{
    match parse(text) {
        Err(e) => Err(EmitError::Parse(e)),
        Ok(script) => emit(&script, header),
    }
}

} // verus!
