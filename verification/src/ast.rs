//! The model of a script: providers, their probes, and the names derived from them.

use vstd::prelude::*;
use crate::text::{chars_of, is_name, is_spelling, texts};

verus! {

/// A text without its doubled separators: each `_` that another `_` follows
/// is left out, so that of every run of separators one is kept.
pub open spec fn collapse(s: Seq<char>) -> Seq<char>
    decreases s.len(),
{
    if s.len() == 0 {
        s
    } else if s.len() >= 2 && s[0] == '_' && s[1] == '_' {
        collapse(s.skip(1))
    } else {
        seq![s[0]] + collapse(s.skip(1))
    }
}

/// What `str::to_uppercase` makes of a text.
pub uninterp spec fn upper_case(s: Seq<char>) -> Seq<char>;

/// What `str::to_lowercase` makes of a text.
pub uninterp spec fn lower_case(s: Seq<char>) -> Seq<char>;

/// Calls `str::to_uppercase`, whose result depends on the text alone; the
/// contract gives that result its name and says nothing else of it.
#[verifier::external_body]
fn to_upper(s: &str) -> (r: String)
    ensures
        r@ == upper_case(s@),
{
    s.to_uppercase()
}

/// Calls `str::to_lowercase`, whose result depends on the text alone; the
/// contract gives that result its name and says nothing else of it.
#[verifier::external_body]
fn to_lower(s: &str) -> (r: String)
    ensures
        r@ == lower_case(s@),
{
    s.to_lowercase()
}

/// Collapses the doubled separators of a text: of every run of `_` one is kept.
pub fn collapse_text(s: &str) -> (r: String)
    ensures
        r@ == collapse(s@),
{
    let chars = chars_of(s);
    let n = chars.len();
    let mut out = String::new();
    let mut i: usize = 0;
    proof {
        assert(s@.skip(0) =~= s@);
    }
    while i < n
        invariant
            n == chars@.len(),
            chars@ == s@,
            i <= n,
            collapse(s@) == out@ + collapse(s@.skip(i as int)),
        decreases n - i,
    {
        let ghost rest = s@.skip(i as int);
        let ghost before = out@;
        proof {
            assert(rest.skip(1) =~= s@.skip(i + 1));
        }
        if !(chars[i] == '_' && i + 1 < n && chars[i + 1] == '_') {
            out.append(s.substring_char(i, i + 1));
            proof {
                assert(s@.subrange(i as int, i + 1) =~= seq![rest[0]]);
                assert(before + (seq![rest[0]] + collapse(rest.skip(1))) =~= (before
                    + seq![rest[0]]) + collapse(rest.skip(1)));
            }
        }
        i += 1;
    }
    proof {
        assert(out@ + Seq::<char>::empty() =~= out@);
    }
    out
}

/// The names that generated code uses for a provider or a probe, all derived
/// from the name as it was written.
pub trait Names {
    /// The name as it was written.
    spec fn name_view(&self) -> Seq<char>;

    fn name(&self) -> (r: &str)
        ensures
            r@ == self.name_view(),
    ;

    /// The name with its doubled separators collapsed: no `__` is left in it.
    fn safe_name(&self) -> (r: String)
        ensures
            r@ == collapse(self.name_view()),
    {
        collapse_text(self.name())
    }

    /// The safe name in upper case, as it stands in the name of the tracing macro.
    fn name_for_c_macro(&self) -> (r: String)
        ensures
            r@ == upper_case(collapse(self.name_view())),
    {
        let safe = self.safe_name();
        to_upper(safe.as_str())
    }

    /// The safe name in lower case, as it stands in a native symbol.
    fn name_for_c(&self) -> (r: String)
        ensures
            r@ == lower_case(collapse(self.name_view())),
    {
        let safe = self.safe_name();
        to_lower(safe.as_str())
    }

    /// The safe name in lower case, as it stands in a binding.
    fn name_for_rust(&self) -> (r: String)
        ensures
            r@ == lower_case(collapse(self.name_view())),
    {
        let safe = self.safe_name();
        to_lower(safe.as_str())
    }
}

/// What a probe holds: its name and the spellings of its arguments' types, in order.
pub struct ProbeView {
    pub name: Seq<char>,
    pub arguments: Seq<Seq<char>>,
}

/// What a provider holds: its name and its probes, in order.
pub struct ProviderView {
    pub name: Seq<char>,
    pub probes: Seq<ProbeView>,
}

/// What a script holds: its providers, in order.
pub struct ScriptView {
    pub providers: Seq<ProviderView>,
}

impl ProbeView {
    /// Whether the probe is one that a text can declare: its name is a name,
    /// and each of its arguments a spelling.
    pub open spec fn well_formed(self) -> bool {
        is_name(self.name) && forall|i: int|
            0 <= i < self.arguments.len() ==> is_spelling(#[trigger] self.arguments[i])
    }
}

impl ProviderView {
    /// Whether the provider is one that a text can declare: its name is a
    /// name, and each of its probes is well formed.
    pub open spec fn well_formed(self) -> bool {
        is_name(self.name) && forall|i: int|
            0 <= i < self.probes.len() ==> (#[trigger] self.probes[i]).well_formed()
    }
}

impl ScriptView {
    /// Whether each provider of the script is well formed.
    pub open spec fn well_formed(self) -> bool {
        forall|i: int|
            0 <= i < self.providers.len() ==> (#[trigger] self.providers[i]).well_formed()
    }
}

/// A probe: a named call site with typed arguments.
#[derive(Debug, PartialEq)]
pub struct Probe {
    /// The probe's name.
    pub name: String,
    /// The spellings of the types of the probe's arguments.
    pub arguments: Vec<String>,
}

/// A provider: a named group of probes.
#[derive(Debug, PartialEq)]
pub struct Provider {
    /// The provider's name.
    pub name: String,
    /// The probes of the provider.
    pub probes: Vec<Probe>,
}

/// The providers of a script.
#[derive(Debug, PartialEq)]
pub struct Script {
    pub providers: Vec<Provider>,
}

impl View for Probe {
    type V = ProbeView;

    open spec fn view(&self) -> ProbeView {
        ProbeView { name: self.name@, arguments: texts(self.arguments@) }
    }
}

/// What a vector of probes holds.
pub open spec fn probe_views(v: Seq<Probe>) -> Seq<ProbeView> {
    Seq::new(v.len(), |i: int| v[i]@)
}

impl View for Provider {
    type V = ProviderView;

    open spec fn view(&self) -> ProviderView {
        ProviderView { name: self.name@, probes: probe_views(self.probes@) }
    }
}

/// What a vector of providers holds.
pub open spec fn provider_views(v: Seq<Provider>) -> Seq<ProviderView> {
    Seq::new(v.len(), |i: int| v[i]@)
}

impl View for Script {
    type V = ScriptView;

    open spec fn view(&self) -> ScriptView {
        ScriptView { providers: provider_views(self.providers@) }
    }
}

impl Names for Provider {
    open spec fn name_view(&self) -> Seq<char> {
        self.name@
    }

    fn name(&self) -> (r: &str) {
        self.name.as_str()
    }
}

impl Names for Probe {
    open spec fn name_view(&self) -> Seq<char> {
        self.name@
    }

    fn name(&self) -> (r: &str) {
        self.name.as_str()
    }
}

} // verus!
