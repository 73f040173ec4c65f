//! What holds of the parser, the names and the emitter, whatever the input.

use vstd::prelude::*;
use crate::ast::{collapse, lower_case, ProbeView, ProviderView, ScriptView};
use crate::emit::{binding_function, binding_source, declaration, module_part, native_function, first_collision, first_repeated, module_names, repeated_at, symbols, argument_names, binding_functions, binding_parameters, declaration_part, declaration_parts, declarations, generated, tells, Artifacts, EmitError, module_parts, native_functions, native_parameters, native_part, native_parts, native_source};
use crate::parser::{arguments_at, probe_at, probe_word, Failure};
use crate::text::{blank, is_spelling, join, join_offset, lemma_join_item, lemma_join_items_in_order, lemma_join_prefix, lemma_occurs_between, lemma_occurs_within, occurs_at, lemma_run_ends_at, trim, trim_end, trim_start, CharClass};

verus! {

/// Whether two separators in a row stand in `s` at `i`.
pub open spec fn double_at(s: Seq<char>, i: int) -> bool {
    0 <= i && i + 1 < s.len() && s[i] == '_' && s[i + 1] == '_'
}

/// A collapsed text is empty only if the text is, and starts as the text does.
pub proof fn lemma_collapse_first(s: Seq<char>)
    ensures
        s.len() == 0 ==> collapse(s).len() == 0,
        s.len() > 0 ==> collapse(s).len() > 0 && collapse(s)[0] == s[0],
    decreases s.len(),
{
    if s.len() >= 2 && s[0] == '_' && s[1] == '_' {
        lemma_collapse_first(s.skip(1));
    }
}

/// A text without a doubled separator stays as it is.
pub proof fn lemma_collapse_without_double(s: Seq<char>)
    requires
        forall|i: int| !double_at(s, i),
    ensures
        collapse(s) == s,
    decreases s.len(),
{
    if s.len() > 0 {
        assert(!double_at(s, 0));
        let rest = s.skip(1);
        assert forall|i: int| !double_at(rest, i) by {
            assert(!double_at(s, i + 1));
        }
        lemma_collapse_without_double(rest);
        assert(seq![s[0]] + rest =~= s);
    }
}

/// No doubled separator is left in a collapsed text.
pub proof fn lemma_collapse_leaves_no_double(s: Seq<char>)
    ensures
        forall|i: int| !double_at(collapse(s), i),
    decreases s.len(),
{
    if s.len() > 0 {
        let rest = s.skip(1);
        lemma_collapse_leaves_no_double(rest);
        lemma_collapse_first(rest);
        if !double_at(s, 0) {
            assert(collapse(s) == seq![s[0]] + collapse(rest));
            assert forall|i: int| !double_at(collapse(s), i) by {
                if double_at(collapse(s), i) {
                    if i == 0 {
                        assert(collapse(s)[1] == collapse(rest)[0]);
                        assert(rest[0] == s[1]);
                    } else {
                        assert(collapse(s)[i] == collapse(rest)[i - 1]);
                        assert(collapse(s)[i + 1] == collapse(rest)[i]);
                        assert(double_at(collapse(rest), i - 1));
                    }
                }
            }
        }
    }
}

/// To collapse a name twice gives what collapsing it once gives.
pub proof fn lemma_collapse_idempotent(s: Seq<char>)
    ensures
        collapse(collapse(s)) == collapse(s),
{
    lemma_collapse_leaves_no_double(s);
    lemma_collapse_without_double(collapse(s));
}

/// Whether two results of a pass are the same: the same sources, or the same
/// error with the same content.
pub open spec fn same_result(
    first: Result<Artifacts, EmitError>,
    second: Result<Artifacts, EmitError>,
) -> bool {
    match (first, second) {
        (Ok(a), Ok(b)) => a.native@ == b.native@ && a.binding@ == b.binding@,
        (Err(EmitError::Parse(e)), Err(EmitError::Parse(f))) => e.expected == f.expected
            && e.position == f.position && e.fragment@ == f.fragment@,
        (Err(EmitError::UnsupportedType(e)), Err(EmitError::UnsupportedType(f))) => e.spelling@
            == f.spelling@,
        (Err(EmitError::Collision(c)), Err(EmitError::Collision(d))) => c.name@ == d.name@,
        _ => false,
    }
}

/// Two passes on the same text and header operand come out the same: whatever
/// two results meet what `generate` ensures, they are the same result.
pub proof fn lemma_passes_agree(
    text: Seq<char>,
    header: Seq<char>,
    first: Result<Artifacts, EmitError>,
    second: Result<Artifacts, EmitError>,
)
    requires
        tells(first, text, generated(text, header)),
        tells(second, text, generated(text, header)),
    ensures
        same_result(first, second),
{
}

/// What a script's first `k` providers give stands at the start of what all
/// of them give, in the native source and in both parts of the binding: a
/// provider's text comes behind the text of every provider declared before it.
pub proof fn lemma_providers_in_order(header: Seq<char>, script: ScriptView, k: int)
    requires
        0 <= k <= script.providers.len(),
    ensures
        native_source(header, ScriptView { providers: script.providers.take(k) }).is_prefix_of(
            native_source(header, script),
        ),
        join(declaration_parts(script.providers.take(k)), "\n\n"@).is_prefix_of(
            join(declaration_parts(script.providers), "\n\n"@),
        ),
        join(module_parts(script.providers.take(k)), "\n\n"@).is_prefix_of(
            join(module_parts(script.providers), "\n\n"@),
        ),
{
    let all = script.providers;
    assert(native_parts(all.take(k)) =~= native_parts(all).take(k));
    assert(declaration_parts(all.take(k)) =~= declaration_parts(all).take(k));
    assert(module_parts(all.take(k)) =~= module_parts(all).take(k));
    lemma_join_prefix(native_parts(all), "\n"@, k);
    lemma_join_prefix(declaration_parts(all), "\n\n"@, k);
    lemma_join_prefix(module_parts(all), "\n\n"@, k);
    let start = "#include "@ + header + "\n\n"@;
    let some = join(native_parts(all.take(k)), "\n"@);
    let whole = join(native_parts(all), "\n"@);
    assert((start + whole).subrange(0, (start + some).len() as int) =~= start + some);
}

/// What a provider's first `k` probes give stands at the start of what all of
/// them give: a probe's text comes behind the text of every probe declared
/// before it in the provider.
pub proof fn lemma_probes_in_order(provider: ProviderView, k: int)
    requires
        0 <= k <= provider.probes.len(),
    ensures
        native_part(ProviderView { name: provider.name, probes: provider.probes.take(k) })
            .is_prefix_of(native_part(provider)),
        declaration_part(
            ProviderView { name: provider.name, probes: provider.probes.take(k) },
        ).is_prefix_of(declaration_part(provider)),
        join(
            binding_functions(
                ProviderView { name: provider.name, probes: provider.probes.take(k) },
            ),
            "\n\n"@,
        ).is_prefix_of(join(binding_functions(provider), "\n\n"@)),
{
    let first = ProviderView { name: provider.name, probes: provider.probes.take(k) };
    assert(native_functions(first) =~= native_functions(provider).take(k));
    assert(declarations(first) =~= declarations(provider).take(k));
    assert(binding_functions(first) =~= binding_functions(provider).take(k));
    lemma_join_prefix(native_functions(provider), Seq::empty(), k);
    lemma_join_prefix(declarations(provider), "\n\n"@, k);
    lemma_join_prefix(binding_functions(provider), "\n\n"@, k);
}

/// The text before the wrappers in the native source.
pub open spec fn native_lead(header: Seq<char>) -> Seq<char> {
    "#include "@ + header + "\n\n"@
}

/// Where the wrapper of probe `j` of provider `i` starts in the native source.
pub open spec fn wrapper_place(header: Seq<char>, script: ScriptView, i: int, j: int) -> int {
    native_lead(header).len() + join_offset(native_parts(script.providers), "\n"@, i)
        + join_offset(native_functions(script.providers[i]), Seq::empty(), j)
}

/// Whether `j` is a probe of provider `i` of the script.
pub open spec fn is_probe_of(script: ScriptView, i: int, j: int) -> bool {
    0 <= i < script.providers.len() && 0 <= j < script.providers[i].probes.len()
}

/// Whether probe `j` of provider `i` is declared before probe `l` of provider `k`.
pub open spec fn declared_before(i: int, j: int, k: int, l: int) -> bool {
    i < k || (i == k && j < l)
}

/// The native source holds the wrapper of every probe: the function with the
/// symbol made of the native names of the provider and the probe, whose body
/// calls the macro made of their macro names.
pub proof fn lemma_wrapper_in_native_source(header: Seq<char>, script: ScriptView, i: int, j: int)
    requires
        is_probe_of(script, i, j),
    ensures
        occurs_at(
            native_source(header, script),
            native_function(script.providers[i].name, script.providers[i].probes[j]),
            wrapper_place(header, script, i, j),
        ),
{
    let parts = native_parts(script.providers);
    let inner = native_functions(script.providers[i]);
    lemma_join_item(parts, "\n"@, i);
    lemma_join_item(inner, Seq::empty(), j);
    lemma_occurs_within(
        join(parts, "\n"@),
        parts[i],
        join_offset(parts, "\n"@, i),
        inner[j],
        join_offset(inner, Seq::empty(), j),
    );
    lemma_occurs_between(native_lead(header), join(parts, "\n"@), Seq::empty());
    assert(native_lead(header) + join(parts, "\n"@) + Seq::<char>::empty() =~= native_source(
        header,
        script,
    ));
    lemma_occurs_within(
        native_source(header, script),
        join(parts, "\n"@),
        native_lead(header).len() as int,
        inner[j],
        join_offset(parts, "\n"@, i) + join_offset(inner, Seq::empty(), j),
    );
}

/// In the native source the wrapper of a probe ends before the wrapper of
/// every probe declared behind it begins, in the same provider or a later one.
pub proof fn lemma_wrappers_in_order(
    header: Seq<char>,
    script: ScriptView,
    i: int,
    j: int,
    k: int,
    l: int,
)
    requires
        is_probe_of(script, i, j),
        is_probe_of(script, k, l),
        declared_before(i, j, k, l),
    ensures
        wrapper_place(header, script, i, j) + native_function(
            script.providers[i].name,
            script.providers[i].probes[j],
        ).len() <= wrapper_place(header, script, k, l),
{
    let parts = native_parts(script.providers);
    let inner = native_functions(script.providers[i]);
    lemma_join_item(inner, Seq::empty(), j);
    if i == k {
        lemma_join_items_in_order(inner, Seq::empty(), j, l);
    } else {
        lemma_join_items_in_order(parts, "\n"@, i, k);
    }
}

/// The text before the declarations in the binding source.
pub open spec fn binding_lead() -> Seq<char> {
    "/// Bindings from Rust to the C FFI small library that calls the\n/// probes.\n\nuse std::os::raw::*;\n\nextern \"C\" {\n"@
}

/// Where the declaration of probe `j` of provider `i` starts in the binding source.
pub open spec fn declaration_place(script: ScriptView, i: int, j: int) -> int {
    binding_lead().len() + join_offset(declaration_parts(script.providers), "\n\n"@, i)
        + join_offset(declarations(script.providers[i]), "\n\n"@, j)
}

/// The binding source holds the declaration of the wrapper of every probe.
pub proof fn lemma_declaration_in_binding_source(script: ScriptView, i: int, j: int)
    requires
        is_probe_of(script, i, j),
    ensures
        occurs_at(
            binding_source(script),
            declaration(script.providers[i].name, script.providers[i].probes[j]),
            declaration_place(script, i, j),
        ),
{
    let parts = declaration_parts(script.providers);
    let inner = declarations(script.providers[i]);
    lemma_join_item(parts, "\n\n"@, i);
    lemma_join_item(inner, "\n\n"@, j);
    lemma_occurs_within(
        join(parts, "\n\n"@),
        parts[i],
        join_offset(parts, "\n\n"@, i),
        inner[j],
        join_offset(inner, "\n\n"@, j),
    );
    let behind = "\n}\n\n"@ + join(module_parts(script.providers), "\n\n"@) + "\n"@;
    lemma_occurs_between(binding_lead(), join(parts, "\n\n"@), behind);
    assert(binding_lead() + join(parts, "\n\n"@) + behind =~= binding_source(script));
    lemma_occurs_within(
        binding_source(script),
        join(parts, "\n\n"@),
        binding_lead().len() as int,
        inner[j],
        join_offset(parts, "\n\n"@, i) + join_offset(inner, "\n\n"@, j),
    );
}

/// In the binding source the declaration of a probe's wrapper ends before the
/// declaration of every probe declared behind it begins.
pub proof fn lemma_declarations_in_order(script: ScriptView, i: int, j: int, k: int, l: int)
    requires
        is_probe_of(script, i, j),
        is_probe_of(script, k, l),
        declared_before(i, j, k, l),
    ensures
        declaration_place(script, i, j) + declaration(
            script.providers[i].name,
            script.providers[i].probes[j],
        ).len() <= declaration_place(script, k, l),
{
    let parts = declaration_parts(script.providers);
    let inner = declarations(script.providers[i]);
    lemma_join_item(inner, "\n\n"@, j);
    if i == k {
        lemma_join_items_in_order(inner, "\n\n"@, j, l);
    } else {
        lemma_join_items_in_order(parts, "\n\n"@, i, k);
    }
}

/// The text of the binding source before its modules.
pub open spec fn modules_lead(script: ScriptView) -> Seq<char> {
    binding_lead() + join(declaration_parts(script.providers), "\n\n"@) + "\n}\n\n"@
}

/// Where the module of provider `i` starts in the binding source.
pub open spec fn module_place(script: ScriptView, i: int) -> int {
    modules_lead(script).len() + join_offset(module_parts(script.providers), "\n\n"@, i)
}

/// The binding source holds the module of every provider, and the module of a
/// provider ends before the module of every provider declared behind it begins.
pub proof fn lemma_modules_in_order(script: ScriptView, i: int, k: int)
    requires
        0 <= i <= k < script.providers.len(),
    ensures
        occurs_at(binding_source(script), module_part(script.providers[i]), module_place(script, i)),
        i < k ==> module_place(script, i) + module_part(script.providers[i]).len() <= module_place(
            script,
            k,
        ),
{
    let parts = module_parts(script.providers);
    lemma_join_item(parts, "\n\n"@, i);
    lemma_occurs_between(modules_lead(script), join(parts, "\n\n"@), "\n"@);
    assert(modules_lead(script) + join(parts, "\n\n"@) + "\n"@ =~= binding_source(script));
    lemma_occurs_within(
        binding_source(script),
        join(parts, "\n\n"@),
        modules_lead(script).len() as int,
        parts[i],
        join_offset(parts, "\n\n"@, i),
    );
    if i < k {
        lemma_join_items_in_order(parts, "\n\n"@, i, k);
    }
}

/// The text of a provider's module before its functions.
pub open spec fn module_lead(provider: ProviderView) -> Seq<char> {
    "/// Probes for the `"@ + lower_case(collapse(provider.name)) + "` provider.\npub mod r#"@
        + lower_case(collapse(provider.name)) + " {\n    use std::os::raw::*;\n\n"@
}

/// Where the function of probe `j` starts in the module of its provider.
pub open spec fn function_place(provider: ProviderView, j: int) -> int {
    module_lead(provider).len() + join_offset(binding_functions(provider), "\n\n"@, j)
}

/// The module of a provider holds the function of each of its probes, under
/// the binding name of the probe, and the function of a probe ends before
/// the function of every probe declared behind it begins.
pub proof fn lemma_functions_in_order(provider: ProviderView, j: int, l: int)
    requires
        0 <= j <= l < provider.probes.len(),
    ensures
        occurs_at(
            module_part(provider),
            binding_function(provider.name, provider.probes[j]),
            function_place(provider, j),
        ),
        j < l ==> function_place(provider, j) + binding_function(
            provider.name,
            provider.probes[j],
        ).len() <= function_place(provider, l),
{
    let inner = binding_functions(provider);
    lemma_join_item(inner, "\n\n"@, j);
    lemma_occurs_between(module_lead(provider), join(inner, "\n\n"@), "\n}"@);
    assert(module_lead(provider) + join(inner, "\n\n"@) + "\n}"@ =~= module_part(provider));
    lemma_occurs_within(
        module_part(provider),
        join(inner, "\n\n"@),
        module_lead(provider).len() as int,
        inner[j],
        join_offset(inner, "\n\n"@, j),
    );
    if j < l {
        lemma_join_items_in_order(inner, "\n\n"@, j, l);
    }
}

/// A probe's wrapper, declaration and binding function each have one
/// parameter for each argument of the probe, and the wrapper and the binding
/// function hand on as many names; without arguments the lists are empty.
pub proof fn lemma_arity(probe: ProbeView)
    ensures
        native_parameters(probe.arguments).len() == probe.arguments.len(),
        binding_parameters(probe.arguments).len() == probe.arguments.len(),
        argument_names(probe.arguments.len()).len() == probe.arguments.len(),
        probe.arguments.len() == 0 ==> join(native_parameters(probe.arguments), ", "@).len() == 0
            && join(binding_parameters(probe.arguments), ", "@).len() == 0 && join(
            argument_names(probe.arguments.len()),
            ", "@,
        ).len() == 0,
{
}

/// No name is found repeated from position `j` on exactly where each name
/// from there on differs from every name before it.
pub proof fn lemma_first_repeated(names: Seq<Seq<char>>, j: int)
    requires
        0 <= j <= names.len(),
    ensures
        first_repeated(names, j) is None <==> forall|a: int, b: int|
            0 <= a < b < names.len() && j <= b ==> #[trigger] names[a] != #[trigger] names[b],
        first_repeated(names, j) is Some ==> exists|a: int, b: int|
            0 <= a < b < names.len() && j <= b && #[trigger] names[a] == #[trigger] names[b]
                && first_repeated(names, j) == Some(names[b]),
    decreases names.len() - j,
{
    if j < names.len() {
        lemma_first_repeated(names, j + 1);
        if repeated_at(names, j) {
            let i = choose|i: int| 0 <= i < j && names[i] == names[j];
            assert(names[i] == names[j]);
        } else {
            assert forall|a: int| 0 <= a < j implies #[trigger] names[a] != names[j] by {
                if names[a] == names[j] {
                    assert(repeated_at(names, j));
                }
            }
        }
    }
}

/// Where the sources of a script define no name twice, the modules of its
/// providers have different names, and the wrappers of its probes have
/// different symbols.
pub proof fn lemma_names_are_distinct(script: ScriptView)
    requires
        first_collision(script) is None,
    ensures
        forall|a: int, b: int|
            0 <= a < b < script.providers.len() ==> #[trigger] module_names(script.providers)[a]
                != #[trigger] module_names(script.providers)[b],
        forall|a: int, b: int|
            0 <= a < b < symbols(script.providers, script.providers.len() as int).len()
                ==> #[trigger] symbols(script.providers, script.providers.len() as int)[a]
                != #[trigger] symbols(script.providers, script.providers.len() as int)[b],
{
    lemma_first_repeated(module_names(script.providers), 0);
    lemma_first_repeated(symbols(script.providers, script.providers.len() as int), 0);
}

/// Whether every character of a text is a blank.
pub open spec fn all_blank(w: Seq<char>) -> bool {
    forall|i: int| 0 <= i < w.len() ==> blank(#[trigger] w[i])
}

/// A spelling with blanks behind it is trimmed to the spelling.
pub proof fn lemma_trim_padded(a: Seq<char>, g: Seq<char>)
    requires
        is_spelling(a),
        all_blank(g),
    ensures
        trim(a + g) == a,
        trim_end(a + g) == a,
    decreases g.len(),
{
    assert((a + g)[0] == a[0]);
    assert(trim_start(a + g) == a + g);
    if g.len() == 0 {
        assert(a + g =~= a);
    } else {
        assert((a + g).last() == g.last());
        assert(blank(g.last()));
        assert((a + g).drop_last() =~= a + g.drop_last());
        lemma_trim_padded(a, g.drop_last());
    }
}

/// The text of the arguments from position `k` on: each with blanks before
/// and behind it, and a comma between each two of them.
pub open spec fn spaced_arguments(
    arguments: Seq<Seq<char>>,
    before: Seq<Seq<char>>,
    behind: Seq<Seq<char>>,
    k: int,
) -> Seq<char>
    decreases arguments.len() - k,
{
    if k < 0 || k >= arguments.len() {
        Seq::empty()
    } else if k == arguments.len() - 1 {
        before[k] + arguments[k] + behind[k]
    } else {
        before[k] + arguments[k] + behind[k] + seq![','] + spaced_arguments(
            arguments,
            before,
            behind,
            k + 1,
        )
    }
}

/// Whether each of the texts is made of blanks.
pub open spec fn all_blanks(gaps: Seq<Seq<char>>) -> bool {
    forall|i: int| 0 <= i < gaps.len() ==> all_blank(#[trigger] gaps[i])
}

/// Where the spaced text of arguments stands in a text before a closing
/// parenthesis, the grammar reads those arguments and stops at the parenthesis.
#[verifier::spinoff_prover]
#[verifier::rlimit(60)]
pub proof fn lemma_spaced_arguments(
    s: Seq<char>,
    i: int,
    arguments: Seq<Seq<char>>,
    before: Seq<Seq<char>>,
    behind: Seq<Seq<char>>,
    k: int,
)
    requires
        0 <= k < arguments.len(),
        before.len() == arguments.len(),
        behind.len() == arguments.len(),
        forall|j: int| 0 <= j < arguments.len() ==> is_spelling(#[trigger] arguments[j]),
        all_blanks(before),
        all_blanks(behind),
        0 <= i,
        i + spaced_arguments(arguments, before, behind, k).len() < s.len(),
        s.subrange(i, i + spaced_arguments(arguments, before, behind, k).len())
            == spaced_arguments(arguments, before, behind, k),
        s[i + spaced_arguments(arguments, before, behind, k).len()] == ')',
    ensures
        arguments_at(s, i) == (
            arguments.skip(k),
            i + spaced_arguments(arguments, before, behind, k).len(),
        ),
    decreases arguments.len() - k,
{
    let text = spaced_arguments(arguments, before, behind, k);
    let g0 = before[k];
    let a = arguments[k];
    let g1 = behind[k];
    let p1: int = i + g0.len();
    let p2: int = p1 + a.len();
    let p3: int = p2 + g1.len();
    assert(is_spelling(a));
    assert(all_blank(g0));
    assert(all_blank(g1));
    assert forall|j: int| i <= j < i + text.len() implies s[j] == text[j - i] by {
        assert(s.subrange(i, i + text.len())[j - i] == s[j]);
    }
    let last = k == arguments.len() - 1;
    if !last {
        assert(text[p3 - i] == ',');
    }
    assert(s[p3] == ',' || s[p3] == ')');
    assert forall|j: int| i <= j < p1 implies CharClass::Blank.holds(#[trigger] s[j]) by {
        assert(text[j - i] == g0[j - i]);
    }
    assert(s[p1] == a[0]) by {
        assert(text[p1 - i] == a[0]);
    }
    lemma_run_ends_at(s, CharClass::Blank, i, p1);
    assert forall|j: int| p1 <= j < p3 implies CharClass::Type.holds(#[trigger] s[j]) by {
        if j < p2 {
            assert(text[j - i] == a[j - p1]);
        } else {
            assert(text[j - i] == g1[j - p2]);
            assert(blank(g1[j - p2]));
        }
    }
    lemma_run_ends_at(s, CharClass::Type, p1, p3);
    assert(s.subrange(p1, p3) =~= a + g1) by {
        assert forall|j: int| 0 <= j < p3 - p1 implies s.subrange(p1, p3)[j] == (a + g1)[j] by {
            if j < a.len() {
                assert(text[p1 + j - i] == a[j]);
            } else {
                assert(text[p1 + j - i] == g1[j - a.len()]);
            }
        }
    }
    lemma_trim_padded(a, g1);
    if last {
        assert(arguments.skip(k) =~= seq![a]);
    } else {
        let tail = spaced_arguments(arguments, before, behind, k + 1);
        assert(s.subrange(p3 + 1, p3 + 1 + tail.len()) =~= tail) by {
            assert forall|j: int| 0 <= j < tail.len() implies s[p3 + 1 + j] == tail[j] by {
                assert(text[p3 + 1 + j - i] == tail[j]);
            }
        }
        lemma_spaced_arguments(s, p3 + 1, arguments, before, behind, k + 1);
        assert(arguments.skip(k) =~= seq![a] + arguments.skip(k + 1));
    }
}

/// The text between the parentheses of a probe: blanks alone where the probe
/// has no arguments, else its arguments with blanks around each.
pub open spec fn spaced_list(
    arguments: Seq<Seq<char>>,
    before: Seq<Seq<char>>,
    behind: Seq<Seq<char>>,
    alone: Seq<char>,
) -> Seq<char> {
    if arguments.len() == 0 {
        alone
    } else {
        spaced_arguments(arguments, before, behind, 0)
    }
}

/// The text of a probe with blanks between its tokens: `w1` before the name,
/// `w2` behind it, `before` and `behind` around the arguments (or `alone`
/// where there is none), and `w3` before the semicolon.
pub open spec fn spaced_probe(
    probe: ProbeView,
    w1: Seq<char>,
    w2: Seq<char>,
    before: Seq<Seq<char>>,
    behind: Seq<Seq<char>>,
    alone: Seq<char>,
    w3: Seq<char>,
) -> Seq<char> {
    probe_word() + w1 + probe.name + w2 + seq!['('] + spaced_list(
        probe.arguments,
        before,
        behind,
        alone,
    ) + seq![')'] + w3 + seq![';']
}

/// Blanks between the tokens of a probe do not matter: whatever blanks stand
/// before and behind the name, around each argument and before the semicolon,
/// the probe that is read is the same, and all of the text is taken.
pub proof fn lemma_blanks_do_not_matter(
    probe: ProbeView,
    w1: Seq<char>,
    w2: Seq<char>,
    before: Seq<Seq<char>>,
    behind: Seq<Seq<char>>,
    alone: Seq<char>,
    w3: Seq<char>,
)
    requires
        probe.well_formed(),
        all_blank(w1),
        all_blank(w2),
        all_blank(w3),
        all_blank(alone),
        before.len() == probe.arguments.len(),
        behind.len() == probe.arguments.len(),
        all_blanks(before),
        all_blanks(behind),
    ensures
        probe_at(spaced_probe(probe, w1, w2, before, behind, alone, w3), 0) == Ok::<
            (ProbeView, int),
            Failure,
        >((probe, spaced_probe(probe, w1, w2, before, behind, alone, w3).len() as int)),
{
    let s = spaced_probe(probe, w1, w2, before, behind, alone, w3);
    let name = probe.name;
    let list = spaced_list(probe.arguments, before, behind, alone);
    let b: int = 5int + w1.len();
    let c: int = b + name.len();
    let d: int = c + w2.len();
    let e: int = d + 1 + list.len();
    let f: int = e + 1 + w3.len();
    assert(s.len() == f + 1);
    assert(s.subrange(0, 5) =~= probe_word());
    assert forall|j: int| 5 <= j < b implies CharClass::Blank.holds(#[trigger] s[j]) by {
        assert(s[j] == w1[j - 5]);
    }
    assert(s[b] == name[0]);
    lemma_run_ends_at(s, CharClass::Blank, 5, b);
    assert forall|j: int| b <= j < c implies CharClass::Name.holds(#[trigger] s[j]) by {
        assert(s[j] == name[j - b]);
    }
    assert(s[d] == '(');
    assert forall|j: int| c <= j < d implies CharClass::Blank.holds(#[trigger] s[j]) by {
        assert(s[j] == w2[j - c]);
    }
    if c < d {
        assert(CharClass::Blank.holds(s[c]));
    }
    lemma_run_ends_at(s, CharClass::Name, b, c);
    assert(s.subrange(b, c) =~= name);
    lemma_run_ends_at(s, CharClass::Blank, c, d);
    assert(s[e] == ')');
    assert forall|j: int| d + 1 <= j < e implies s[j] == list[j - d - 1] by {}
    if probe.arguments.len() == 0 {
        assert forall|j: int| d + 1 <= j < e implies CharClass::Blank.holds(#[trigger] s[j]) by {
            assert(s[j] == alone[j - d - 1]);
        }
        lemma_run_ends_at(s, CharClass::Blank, d + 1, e);
        lemma_run_ends_at(s, CharClass::Type, e, e);
        assert(s.subrange(e, e) =~= Seq::<char>::empty());
        assert(arguments_at(s, d + 1) == (Seq::<Seq<char>>::empty(), e));
        assert(probe.arguments =~= Seq::<Seq<char>>::empty());
    } else {
        assert(s.subrange(d + 1, e) =~= list);
        lemma_spaced_arguments(s, d + 1, probe.arguments, before, behind, 0);
        assert(probe.arguments.skip(0) =~= probe.arguments);
    }
    assert(s[f] == ';');
    assert forall|j: int| e + 1 <= j < f implies CharClass::Blank.holds(#[trigger] s[j]) by {
        assert(s[j] == w3[j - e - 1]);
    }
    lemma_run_ends_at(s, CharClass::Blank, e + 1, f);
}

} // verus!
