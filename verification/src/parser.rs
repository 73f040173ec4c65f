//! The parser of provider definitions.
//!
//! A script is searched for the word `provider`; whatever stands before it is
//! passed over, and one provider block is read from there. The grammar is
//! stated as functions on the text and a position in it, and the parsing
//! functions are proved to compute them.

use vstd::prelude::*;
use crate::ast::{probe_views, provider_views, Probe, ProbeView, Provider, ProviderView, Script, ScriptView};
use crate::text::{chars_of, find, find_word, has_word_at, is_name, is_spelling, name_char, type_char, lemma_find_word, lemma_run_end, lemma_trim_gives_spelling, run_end, scan, texts, trim, trim_range, word_at, CharClass};

verus! {

/// What the parser looked for where it stopped.
#[derive(Clone, Copy, Debug, PartialEq, Eq, Structural)]
pub enum Expected {
    ProbeKeyword,
    ProviderKeyword,
    Name,
    OpenParen,
    CloseParen,
    OpenBrace,
    CloseBrace,
    Semicolon,
}

/// Where the grammar fails on a text, and on what.
pub struct Failure {
    pub expected: Expected,
    pub position: int,
}

/// A malformed probe or provider.
#[derive(Debug, PartialEq)]
pub struct ParseError {
    /// What was looked for.
    pub expected: Expected,
    /// Where it was looked for: the number of characters before that place.
    pub position: usize,
    /// The text from that place on.
    pub fragment: String,
}

impl ParseError {
    /// Whether the error says of the text `s` what `f` says.
    pub open spec fn reports(self, f: Failure, s: Seq<char>) -> bool {
        self.expected == f.expected && self.position == f.position && self.fragment@ == s.skip(
            f.position,
        )
    }
}

/// The word that starts a probe.
pub open spec fn probe_word() -> Seq<char> {
    seq!['p', 'r', 'o', 'b', 'e']
}

/// The word that starts a provider.
pub open spec fn provider_word() -> Seq<char> {
    seq!['p', 'r', 'o', 'v', 'i', 'd', 'e', 'r']
}

/// Whether the character `c` stands in `s` at `i`.
pub open spec fn char_at(s: Seq<char>, i: int, c: char) -> bool {
    0 <= i < s.len() && s[i] == c
}

/// The name that starts at `i`, and where it ends: the longest run of name
/// characters, which must not be empty.
pub open spec fn name_at(s: Seq<char>, i: int) -> Result<(Seq<char>, int), Failure> {
    let end = run_end(s, CharClass::Name, i);
    if end > i {
        Ok((s.subrange(i, end), end))
    } else {
        Err(Failure { expected: Expected::Name, position: i })
    }
}

/// The arguments that start at `i`, and where the list ends. Each argument is
/// a run of type characters without the White_Space around it; an empty one
/// does not count; a comma leads to the next.
pub open spec fn arguments_at(s: Seq<char>, i: int) -> (Seq<Seq<char>>, int)
    decreases s.len() - i,
    via arguments_at_decreases
{
    let from = run_end(s, CharClass::Blank, i);
    let to = run_end(s, CharClass::Type, from);
    let token = trim(s.subrange(from, to));
    let head = if token.len() > 0 {
        seq![token]
    } else {
        Seq::empty()
    };
    if char_at(s, to, ',') {
        let (rest, end) = arguments_at(s, to + 1);
        (head + rest, end)
    } else {
        (head, to)
    }
}

#[via_fn]
proof fn arguments_at_decreases(s: Seq<char>, i: int) {
    if 0 <= i <= s.len() {
        lemma_run_end(s, CharClass::Blank, i);
        lemma_run_end(s, CharClass::Type, run_end(s, CharClass::Blank, i));
    }
}

/// The list of arguments ends inside the text.
pub proof fn lemma_arguments_end(s: Seq<char>, i: int)
    requires
        0 <= i <= s.len(),
    ensures
        i <= arguments_at(s, i).1 <= s.len(),
    decreases s.len() - i,
{
    lemma_run_end(s, CharClass::Blank, i);
    let from = run_end(s, CharClass::Blank, i);
    lemma_run_end(s, CharClass::Type, from);
    let to = run_end(s, CharClass::Type, from);
    if char_at(s, to, ',') {
        lemma_arguments_end(s, to + 1);
    }
}

/// The probe that starts at `i`, and where it ends: the word `probe`, a name,
/// the arguments in parentheses, and a semicolon, with blanks allowed before
/// each of them but the first.
pub open spec fn probe_at(s: Seq<char>, i: int) -> Result<(ProbeView, int), Failure> {
    if !word_at(s, probe_word(), i) {
        Err(Failure { expected: Expected::ProbeKeyword, position: i })
    } else {
        let from = run_end(s, CharClass::Blank, i + 5);
        match name_at(s, from) {
            Err(f) => Err(f),
            Ok((name, to)) => {
                let open = run_end(s, CharClass::Blank, to);
                if !char_at(s, open, '(') {
                    Err(Failure { expected: Expected::OpenParen, position: open })
                } else {
                    let (arguments, close) = arguments_at(s, open + 1);
                    if !char_at(s, close, ')') {
                        Err(Failure { expected: Expected::CloseParen, position: close })
                    } else {
                        let semi = run_end(s, CharClass::Blank, close + 1);
                        if !char_at(s, semi, ';') {
                            Err(Failure { expected: Expected::Semicolon, position: semi })
                        } else {
                            Ok((ProbeView { name, arguments }, semi + 1))
                        }
                    }
                }
            },
        }
    }
}

/// A probe ends after its start and inside the text.
pub proof fn lemma_probe_end(s: Seq<char>, i: int)
    ensures
        probe_at(s, i) is Ok ==> 0 <= i < probe_at(s, i)->Ok_0.1 <= s.len(),
{
    if probe_at(s, i) is Ok {
        lemma_run_end(s, CharClass::Blank, i + 5);
        let from = run_end(s, CharClass::Blank, i + 5);
        lemma_run_end(s, CharClass::Name, from);
        let to = run_end(s, CharClass::Name, from);
        lemma_run_end(s, CharClass::Blank, to);
        let open = run_end(s, CharClass::Blank, to);
        lemma_arguments_end(s, open + 1);
        let close = arguments_at(s, open + 1).1;
        lemma_run_end(s, CharClass::Blank, close + 1);
    }
}

/// The probes that start at `i`, each after blanks, and where the first text
/// that is no probe starts.
pub open spec fn probes_at(s: Seq<char>, i: int) -> (Seq<ProbeView>, int)
    decreases s.len() - i,
    via probes_at_decreases
{
    match probe_at(s, run_end(s, CharClass::Blank, i)) {
        Ok((probe, next)) => {
            let (rest, end) = probes_at(s, next);
            (seq![probe] + rest, end)
        },
        Err(_) => (Seq::empty(), i),
    }
}

#[via_fn]
proof fn probes_at_decreases(s: Seq<char>, i: int) {
    let from = run_end(s, CharClass::Blank, i);
    lemma_probe_end(s, from);
    if 0 <= i <= s.len() {
        lemma_run_end(s, CharClass::Blank, i);
    }
}

/// The list of probes ends inside the text.
pub proof fn lemma_probes_end(s: Seq<char>, i: int)
    requires
        0 <= i <= s.len(),
    ensures
        i <= probes_at(s, i).1 <= s.len(),
    decreases s.len() - i,
{
    lemma_run_end(s, CharClass::Blank, i);
    let from = run_end(s, CharClass::Blank, i);
    lemma_probe_end(s, from);
    if let Ok((probe, next)) = probe_at(s, from) {
        lemma_probes_end(s, next);
    }
}

/// The provider that starts at `i`, and where it ends: the word `provider`, a
/// name, the probes in braces, and a semicolon, with blanks allowed before
/// each of them but the first.
pub open spec fn provider_at(s: Seq<char>, i: int) -> Result<(ProviderView, int), Failure> {
    if !word_at(s, provider_word(), i) {
        Err(Failure { expected: Expected::ProviderKeyword, position: i })
    } else {
        let from = run_end(s, CharClass::Blank, i + 8);
        match name_at(s, from) {
            Err(f) => Err(f),
            Ok((name, to)) => {
                let open = run_end(s, CharClass::Blank, to);
                if !char_at(s, open, '{') {
                    Err(Failure { expected: Expected::OpenBrace, position: open })
                } else {
                    let (probes, after) = probes_at(s, open + 1);
                    let close = run_end(s, CharClass::Blank, after);
                    if !char_at(s, close, '}') {
                        Err(Failure { expected: Expected::CloseBrace, position: close })
                    } else {
                        let semi = run_end(s, CharClass::Blank, close + 1);
                        if !char_at(s, semi, ';') {
                            Err(Failure { expected: Expected::Semicolon, position: semi })
                        } else {
                            Ok((ProviderView { name, probes }, semi + 1))
                        }
                    }
                }
            },
        }
    }
}

/// A provider ends after its start and inside the text.
pub proof fn lemma_provider_end(s: Seq<char>, i: int)
    ensures
        provider_at(s, i) is Ok ==> 0 <= i < provider_at(s, i)->Ok_0.1 <= s.len(),
{
    if provider_at(s, i) is Ok {
        lemma_run_end(s, CharClass::Blank, i + 8);
        let from = run_end(s, CharClass::Blank, i + 8);
        lemma_run_end(s, CharClass::Name, from);
        let to = run_end(s, CharClass::Name, from);
        lemma_run_end(s, CharClass::Blank, to);
        let open = run_end(s, CharClass::Blank, to);
        lemma_probes_end(s, open + 1);
        let after = probes_at(s, open + 1).1;
        lemma_run_end(s, CharClass::Blank, after);
        let close = run_end(s, CharClass::Blank, after);
        lemma_run_end(s, CharClass::Blank, close + 1);
    }
}

/// The providers of the text from `i` on: from each place where the word
/// `provider` is found next, one provider is read, and the search goes on
/// behind it. A provider that is malformed fails the whole.
pub open spec fn providers_from(s: Seq<char>, i: int) -> Result<Seq<ProviderView>, Failure>
    decreases s.len() - i,
    via providers_from_decreases
{
    match find_word(s, provider_word(), i) {
        None => Ok(Seq::empty()),
        Some(at) => match provider_at(s, at) {
            Err(f) => Err(f),
            Ok((provider, next)) => after(seq![provider], providers_from(s, next)),
        },
    }
}

/// The providers read so far followed by those that the rest of the text
/// holds, where it holds any: a failure in the rest is the failure of the whole.
pub open spec fn after(
    first: Seq<ProviderView>,
    rest: Result<Seq<ProviderView>, Failure>,
) -> Result<Seq<ProviderView>, Failure> {
    match rest {
        Ok(providers) => Ok(first + providers),
        Err(f) => Err(f),
    }
}

#[via_fn]
proof fn providers_from_decreases(s: Seq<char>, i: int) {
    match find_word(s, provider_word(), i) {
        None => {},
        Some(at) => {
            lemma_find_word(s, provider_word(), i);
            lemma_provider_end(s, at);
        },
    }
}

/// The script that a text holds, or where and on what the grammar fails.
pub open spec fn script_of(s: Seq<char>) -> Result<ScriptView, Failure> {
    match providers_from(s, 0) {
        Ok(providers) => Ok(ScriptView { providers }),
        Err(f) => Err(f),
    }
}

/// Each argument that the grammar reads is a spelling.
pub proof fn lemma_arguments_are_spellings(s: Seq<char>, i: int)
    requires
        0 <= i <= s.len(),
    ensures
        forall|k: int|
            0 <= k < arguments_at(s, i).0.len() ==> is_spelling(#[trigger] arguments_at(s, i).0[k]),
    decreases s.len() - i,
{
    lemma_run_end(s, CharClass::Blank, i);
    let from = run_end(s, CharClass::Blank, i);
    lemma_run_end(s, CharClass::Type, from);
    let to = run_end(s, CharClass::Type, from);
    let run = s.subrange(from, to);
    assert forall|j: int| 0 <= j < run.len() implies type_char(#[trigger] run[j]) by {
        assert(CharClass::Type.holds(s[from + j]));
    }
    lemma_trim_gives_spelling(run);
    let head = if trim(run).len() > 0 {
        seq![trim(run)]
    } else {
        Seq::empty()
    };
    if char_at(s, to, ',') {
        lemma_arguments_are_spellings(s, to + 1);
        let rest = arguments_at(s, to + 1).0;
        assert(arguments_at(s, i).0 == head + rest);
        assert forall|k: int| 0 <= k < (head + rest).len() implies is_spelling(
            #[trigger] (head + rest)[k],
        ) by {
            if k >= head.len() {
                assert((head + rest)[k] == rest[k - head.len()]);
            }
        }
    } else {
        assert(arguments_at(s, i).0 == head);
    }
}

/// Each probe that the grammar reads is well formed.
pub proof fn lemma_probe_is_well_formed(s: Seq<char>, i: int)
    ensures
        probe_at(s, i) is Ok ==> probe_at(s, i)->Ok_0.0.well_formed(),
{
    if probe_at(s, i) is Ok {
        lemma_run_end(s, CharClass::Blank, i + 5);
        let from = run_end(s, CharClass::Blank, i + 5);
        lemma_run_end(s, CharClass::Name, from);
        let to = run_end(s, CharClass::Name, from);
        assert forall|j: int| 0 <= j < to - from implies name_char(
            #[trigger] s.subrange(from, to)[j],
        ) by {
            assert(CharClass::Name.holds(s[from + j]));
        }
        lemma_run_end(s, CharClass::Blank, to);
        let open = run_end(s, CharClass::Blank, to);
        lemma_arguments_are_spellings(s, open + 1);
    }
}

/// Each probe of a list that the grammar reads is well formed.
pub proof fn lemma_probes_are_well_formed(s: Seq<char>, i: int)
    requires
        0 <= i <= s.len(),
    ensures
        forall|k: int|
            0 <= k < probes_at(s, i).0.len() ==> (#[trigger] probes_at(s, i).0[k]).well_formed(),
    decreases s.len() - i,
{
    lemma_run_end(s, CharClass::Blank, i);
    let from = run_end(s, CharClass::Blank, i);
    lemma_probe_end(s, from);
    lemma_probe_is_well_formed(s, from);
    if let Ok((probe, next)) = probe_at(s, from) {
        lemma_probes_are_well_formed(s, next);
        let rest = probes_at(s, next).0;
        assert(probes_at(s, i).0 == seq![probe] + rest);
        assert forall|k: int| 0 <= k < (seq![probe] + rest).len() implies (#[trigger] (seq![probe]
            + rest)[k]).well_formed() by {
            if k >= 1 {
                assert((seq![probe] + rest)[k] == rest[k - 1]);
            }
        }
    }
}

/// Each provider that the grammar reads is well formed.
pub proof fn lemma_provider_is_well_formed(s: Seq<char>, i: int)
    ensures
        provider_at(s, i) is Ok ==> provider_at(s, i)->Ok_0.0.well_formed(),
{
    if provider_at(s, i) is Ok {
        lemma_run_end(s, CharClass::Blank, i + 8);
        let from = run_end(s, CharClass::Blank, i + 8);
        lemma_run_end(s, CharClass::Name, from);
        let to = run_end(s, CharClass::Name, from);
        assert forall|j: int| 0 <= j < to - from implies name_char(
            #[trigger] s.subrange(from, to)[j],
        ) by {
            assert(CharClass::Name.holds(s[from + j]));
        }
        lemma_run_end(s, CharClass::Blank, to);
        let open = run_end(s, CharClass::Blank, to);
        lemma_probes_are_well_formed(s, open + 1);
    }
}

/// Each provider of a script that the grammar reads is well formed.
pub proof fn lemma_providers_are_well_formed(s: Seq<char>, i: int)
    requires
        0 <= i <= s.len(),
    ensures
        providers_from(s, i) is Ok ==> forall|k: int|
            0 <= k < providers_from(s, i)->Ok_0.len() ==> (#[trigger] providers_from(
                s,
                i,
            )->Ok_0[k]).well_formed(),
    decreases s.len() - i,
{
    lemma_find_word(s, provider_word(), i);
    if let Some(at) = find_word(s, provider_word(), i) {
        lemma_provider_end(s, at);
        lemma_provider_is_well_formed(s, at);
        if let Ok((provider, next)) = provider_at(s, at) {
            lemma_providers_are_well_formed(s, next);
            if let Ok(rest) = providers_from(s, next) {
                assert(providers_from(s, i)->Ok_0 == seq![provider] + rest);
                assert forall|k: int| 0 <= k < (seq![provider] + rest).len() implies (#[trigger] (
                seq![provider] + rest)[k]).well_formed() by {
                    if k >= 1 {
                        assert((seq![provider] + rest)[k] == rest[k - 1]);
                    }
                }
            }
        }
    }
}

/// A script that the grammar reads is well formed: the names of its providers
/// and probes are names, and the arguments of its probes are spellings.
pub proof fn lemma_script_is_well_formed(s: Seq<char>)
    ensures
        script_of(s) is Ok ==> script_of(s)->Ok_0.well_formed(),
{
    lemma_providers_are_well_formed(s, 0);
}

/// The word that starts a probe, as characters.
fn probe_keyword() -> (r: Vec<char>)
    ensures
        r@ == probe_word(),
{
    let r = vec!['p', 'r', 'o', 'b', 'e'];
    assert(r@ =~= probe_word());
    r
}

/// The word that starts a provider, as characters.
fn provider_keyword() -> (r: Vec<char>)
    ensures
        r@ == provider_word(),
{
    let r = vec!['p', 'r', 'o', 'v', 'i', 'd', 'e', 'r'];
    assert(r@ =~= provider_word());
    r
}

/// Tells whether the character `c` stands at `pos`.
fn has_char(chars: &Vec<char>, pos: usize, c: char) -> (r: bool)
    ensures
        r == char_at(chars@, pos as int, c),
        r ==> pos < usize::MAX,
{
    pos < chars.len() && chars[pos] == c
}

/// The error for what was expected at `pos` and is not there.
fn failure(text: &str, chars: &Vec<char>, expected: Expected, pos: usize) -> (e: ParseError)
    requires
        chars@ == text@,
        pos <= chars@.len(),
    ensures
        e.reports(Failure { expected, position: pos as int }, text@),
{
    let fragment = String::from_str(text.substring_char(pos, chars.len()));
    assert(text@.subrange(pos as int, chars@.len() as int) =~= text@.skip(pos as int));
    ParseError { expected, position: pos, fragment }
}

/// Reads the name that starts at `pos`.
fn parse_name(text: &str, chars: &Vec<char>, pos: usize) -> (r: Result<(String, usize), ParseError>)
    requires
        chars@ == text@,
        pos <= chars@.len(),
    ensures
        match r {
            Ok((name, end)) => name_at(text@, pos as int) == Ok::<(Seq<char>, int), Failure>(
                (name@, end as int),
            ) && pos < end <= chars@.len(),
            Err(e) => name_at(text@, pos as int) is Err && e.reports(
                name_at(text@, pos as int)->Err_0,
                text@,
            ),
        },
{
    let end = scan(chars, CharClass::Name, pos);
    if end > pos {
        Ok((String::from_str(text.substring_char(pos, end)), end))
    } else {
        Err(failure(text, chars, Expected::Name, pos))
    }
}

/// Reads the arguments that start at `pos`, up to where the list ends.
fn parse_arguments(text: &str, chars: &Vec<char>, pos: usize) -> (r: (Vec<String>, usize))
    requires
        chars@ == text@,
        pos <= chars@.len(),
    ensures
        texts(r.0@) == arguments_at(text@, pos as int).0,
        r.1 == arguments_at(text@, pos as int).1,
        pos <= r.1 <= chars@.len(),
{
    let mut out: Vec<String> = Vec::new();
    let mut cur: usize = pos;
    proof {
        assert(texts(out@) + arguments_at(text@, cur as int).0 =~= arguments_at(
            text@,
            cur as int,
        ).0);
    }
    loop
        invariant
            chars@ == text@,
            pos <= cur <= chars@.len(),
            arguments_at(text@, pos as int).0 == texts(out@) + arguments_at(text@, cur as int).0,
            arguments_at(text@, pos as int).1 == arguments_at(text@, cur as int).1,
        decreases chars@.len() - cur,
    {
        let from = scan(chars, CharClass::Blank, cur);
        let to = scan(chars, CharClass::Type, from);
        let (a, b) = trim_range(chars, from, to);
        let ghost before = texts(out@);
        let ghost token = trim(text@.subrange(from as int, to as int));
        let ghost head = if token.len() > 0 {
            seq![token]
        } else {
            Seq::empty()
        };
        if b > a {
            out.push(String::from_str(text.substring_char(a, b)));
        }
        proof {
            assert(texts(out@) =~= before + head);
        }
        if has_char(chars, to, ',') {
            proof {
                let rest = arguments_at(text@, to + 1).0;
                assert(before + (head + rest) =~= (before + head) + rest);
            }
            cur = to + 1;
        } else {
            return (out, to);
        }
    }
}

/// Reads the probe that starts at `pos`.
fn parse_probe(text: &str, chars: &Vec<char>, pos: usize) -> (r: Result<(Probe, usize), ParseError>)
    requires
        chars@ == text@,
        pos <= chars@.len(),
    ensures
        match r {
            Ok((probe, end)) => probe_at(text@, pos as int) == Ok::<(ProbeView, int), Failure>(
                (probe@, end as int),
            ) && pos < end <= chars@.len(),
            Err(e) => probe_at(text@, pos as int) is Err && e.reports(
                probe_at(text@, pos as int)->Err_0,
                text@,
            ),
        },
{
    let word = probe_keyword();
    if !has_word_at(chars, &word, pos) {
        return Err(failure(text, chars, Expected::ProbeKeyword, pos));
    }
    let from = scan(chars, CharClass::Blank, pos + 5);
    let (name, to) = match parse_name(text, chars, from) {
        Ok(found) => found,
        Err(e) => {
            return Err(e);
        },
    };
    let open = scan(chars, CharClass::Blank, to);
    if !has_char(chars, open, '(') {
        return Err(failure(text, chars, Expected::OpenParen, open));
    }
    let (arguments, close) = parse_arguments(text, chars, open + 1);
    if !has_char(chars, close, ')') {
        return Err(failure(text, chars, Expected::CloseParen, close));
    }
    let semi = scan(chars, CharClass::Blank, close + 1);
    if !has_char(chars, semi, ';') {
        return Err(failure(text, chars, Expected::Semicolon, semi));
    }
    Ok((Probe { name, arguments }, semi + 1))
}

/// Reads the probes that start at `pos`, up to the first text that is no probe.
fn parse_probes(text: &str, chars: &Vec<char>, pos: usize) -> (r: (Vec<Probe>, usize))
    requires
        chars@ == text@,
        pos <= chars@.len(),
    ensures
        probe_views(r.0@) == probes_at(text@, pos as int).0,
        r.1 == probes_at(text@, pos as int).1,
        pos <= r.1 <= chars@.len(),
{
    let mut out: Vec<Probe> = Vec::new();
    let mut cur: usize = pos;
    proof {
        assert(probe_views(out@) + probes_at(text@, cur as int).0 =~= probes_at(
            text@,
            cur as int,
        ).0);
    }
    loop
        invariant
            chars@ == text@,
            pos <= cur <= chars@.len(),
            probes_at(text@, pos as int).0 == probe_views(out@) + probes_at(text@, cur as int).0,
            probes_at(text@, pos as int).1 == probes_at(text@, cur as int).1,
        decreases chars@.len() - cur,
    {
        let from = scan(chars, CharClass::Blank, cur);
        let ghost before = probe_views(out@);
        match parse_probe(text, chars, from) {
            Ok((probe, next)) => {
                proof {
                    let rest = probes_at(text@, next as int).0;
                    assert(before + (seq![probe@] + rest) =~= (before + seq![probe@]) + rest);
                }
                out.push(probe);
                proof {
                    assert(probe_views(out@) =~= before + seq![probe@]);
                }
                cur = next;
            },
            Err(_) => {
                proof {
                    assert(before + Seq::<ProbeView>::empty() =~= before);
                }
                return (out, cur);
            },
        }
    }
}

/// Reads the provider that starts at `pos`.
fn parse_provider(text: &str, chars: &Vec<char>, pos: usize) -> (r: Result<
    (Provider, usize),
    ParseError,
>)
    requires
        chars@ == text@,
        pos <= chars@.len(),
    ensures
        match r {
            Ok((provider, end)) => provider_at(text@, pos as int) == Ok::<
                (ProviderView, int),
                Failure,
            >((provider@, end as int)) && pos < end <= chars@.len(),
            Err(e) => provider_at(text@, pos as int) is Err && e.reports(
                provider_at(text@, pos as int)->Err_0,
                text@,
            ),
        },
{
    let word = provider_keyword();
    if !has_word_at(chars, &word, pos) {
        return Err(failure(text, chars, Expected::ProviderKeyword, pos));
    }
    let from = scan(chars, CharClass::Blank, pos + 8);
    let (name, to) = match parse_name(text, chars, from) {
        Ok(found) => found,
        Err(e) => {
            return Err(e);
        },
    };
    let open = scan(chars, CharClass::Blank, to);
    if !has_char(chars, open, '{') {
        return Err(failure(text, chars, Expected::OpenBrace, open));
    }
    let (probes, after) = parse_probes(text, chars, open + 1);
    let close = scan(chars, CharClass::Blank, after);
    if !has_char(chars, close, '}') {
        return Err(failure(text, chars, Expected::CloseBrace, close));
    }
    let semi = scan(chars, CharClass::Blank, close + 1);
    if !has_char(chars, semi, ';') {
        return Err(failure(text, chars, Expected::Semicolon, semi));
    }
    Ok((Provider { name, probes }, semi + 1))
}

/// Reads every provider of the text, from one occurrence of the word `provider` to the next.
fn parse_providers(text: &str, chars: &Vec<char>) -> (r: Result<Vec<Provider>, ParseError>)
    requires
        chars@ == text@,
    ensures
        match r {
            Ok(providers) => providers_from(text@, 0) == Ok::<Seq<ProviderView>, Failure>(
                provider_views(providers@),
            ),
            Err(e) => providers_from(text@, 0) is Err && e.reports(
                providers_from(text@, 0)->Err_0,
                text@,
            ),
        },
{
    let word = provider_keyword();
    let mut out: Vec<Provider> = Vec::new();
    let mut cur: usize = 0;
    proof {
        match providers_from(text@, 0) {
            Ok(all) => {
                assert(provider_views(out@) + all =~= all);
            },
            Err(_) => {},
        }
    }
    loop
        invariant
            chars@ == text@,
            word@ == provider_word(),
            cur <= chars@.len(),
            providers_from(text@, 0) == after(
                provider_views(out@),
                providers_from(text@, cur as int),
            ),
        decreases chars@.len() - cur,
    {
        let ghost before = provider_views(out@);
        match find(chars, &word, cur) {
            None => {
                proof {
                    assert(before + Seq::<ProviderView>::empty() =~= before);
                }
                return Ok(out);
            },
            Some(at) => match parse_provider(text, chars, at) {
                Err(e) => {
                    return Err(e);
                },
                Ok((provider, next)) => {
                    proof {
                        match providers_from(text@, next as int) {
                            Ok(rest) => {
                                assert(before + (seq![provider@] + rest) =~= (before
                                    + seq![provider@]) + rest);
                            },
                            Err(_) => {},
                        }
                    }
                    out.push(provider);
                    proof {
                        assert(provider_views(out@) =~= before + seq![provider@]);
                    }
                    cur = next;
                },
            },
        }
    }
}

/// Takes the blanks at the start of a text: returns what follows them, and them.
pub fn ws<'a>(input: &'a str) -> (r: (&'a str, &'a str))
    ensures
        r.1@ == input@.take(run_end(input@, CharClass::Blank, 0)),
        r.0@ == input@.skip(run_end(input@, CharClass::Blank, 0)),
{
    let chars = chars_of(input);
    let end = scan(&chars, CharClass::Blank, 0);
    let taken = input.substring_char(0, end);
    let rest = input.substring_char(end, chars.len());
    proof {
        assert(input@.subrange(0, end as int) =~= input@.take(end as int));
        assert(input@.subrange(end as int, chars@.len() as int) =~= input@.skip(end as int));
    }
    (rest, taken)
}

/// Takes the name at the start of a text: returns what follows it, and the
/// name. A text that starts with no name character is an error.
pub fn name<'a>(input: &'a str) -> (r: Result<(&'a str, &'a str), ParseError>)
    ensures
        match r {
            Ok((rest, name)) => name_at(input@, 0) == Ok::<(Seq<char>, int), Failure>(
                (name@, name@.len() as int),
            ) && rest@ == input@.skip(name@.len() as int) && is_name(name@),
            Err(e) => name_at(input@, 0) is Err && e.reports(name_at(input@, 0)->Err_0, input@),
        },
{
    let chars = chars_of(input);
    let end = scan(&chars, CharClass::Name, 0);
    proof {
        lemma_run_end(input@, CharClass::Name, 0);
    }
    if end > 0 {
        let taken = input.substring_char(0, end);
        let rest = input.substring_char(end, chars.len());
        proof {
            assert(input@.subrange(end as int, chars@.len() as int) =~= input@.skip(end as int));
        }
        Ok((rest, taken))
    } else {
        Err(failure(input, &chars, Expected::Name, 0))
    }
}

/// Takes the type spelling at the start of a text, as it is written: returns
/// what follows it (nothing, or a text that starts with `,` or `)`), and the spelling.
pub fn ty<'a>(input: &'a str) -> (r: (&'a str, &'a str))
    ensures
        r.1@ == input@.take(run_end(input@, CharClass::Type, 0)),
        r.0@ == input@.skip(run_end(input@, CharClass::Type, 0)),
{
    let chars = chars_of(input);
    let end = scan(&chars, CharClass::Type, 0);
    let taken = input.substring_char(0, end);
    let rest = input.substring_char(end, chars.len());
    proof {
        assert(input@.subrange(0, end as int) =~= input@.take(end as int));
        assert(input@.subrange(end as int, chars@.len() as int) =~= input@.skip(end as int));
    }
    (rest, taken)
}

/// Reads the probe at the start of a text: returns what follows it, and the probe.
pub fn probe<'a>(input: &'a str) -> (r: Result<(&'a str, Probe), ParseError>)
    ensures
        match r {
            Ok((rest, probe)) => probe_at(input@, 0) is Ok && probe@ == probe_at(
                input@,
                0,
            )->Ok_0.0 && rest@ == input@.skip(probe_at(input@, 0)->Ok_0.1)
                && probe@.well_formed(),
            Err(e) => probe_at(input@, 0) is Err && e.reports(probe_at(input@, 0)->Err_0, input@),
        },
{
    let chars = chars_of(input);
    proof {
        lemma_probe_is_well_formed(input@, 0);
    }
    match parse_probe(input, &chars, 0) {
        Ok((probe, end)) => {
            let rest = input.substring_char(end, chars.len());
            proof {
                assert(input@.subrange(end as int, chars@.len() as int) =~= input@.skip(
                    end as int,
                ));
            }
            Ok((rest, probe))
        },
        Err(e) => Err(e),
    }
}

/// Reads the provider at the start of a text: returns what follows it, and the provider.
pub fn provider<'a>(input: &'a str) -> (r: Result<(&'a str, Provider), ParseError>)
    ensures
        match r {
            Ok((rest, provider)) => provider_at(input@, 0) is Ok && provider@ == provider_at(
                input@,
                0,
            )->Ok_0.0 && rest@ == input@.skip(provider_at(input@, 0)->Ok_0.1)
                && provider@.well_formed(),
            Err(e) => provider_at(input@, 0) is Err && e.reports(
                provider_at(input@, 0)->Err_0,
                input@,
            ),
        },
{
    let chars = chars_of(input);
    proof {
        lemma_provider_is_well_formed(input@, 0);
    }
    match parse_provider(input, &chars, 0) {
        Ok((provider, end)) => {
            let rest = input.substring_char(end, chars.len());
            proof {
                assert(input@.subrange(end as int, chars@.len() as int) =~= input@.skip(
                    end as int,
                ));
            }
            Ok((rest, provider))
        },
        Err(e) => Err(e),
    }
}

/// Reads the providers of a text, passing over what stands between them:
/// returns what is left of the text, which is nothing, and the script.
pub fn script<'a>(input: &'a str) -> (r: Result<(&'a str, Script), ParseError>)
    ensures
        match r {
            Ok((rest, script)) => script_of(input@) == Ok::<ScriptView, Failure>(script@)
                && rest@.len() == 0 && script@.well_formed(),
            Err(e) => script_of(input@) is Err && e.reports(script_of(input@)->Err_0, input@),
        },
{
    let chars = chars_of(input);
    proof {
        lemma_script_is_well_formed(input@);
    }
    match parse_providers(input, &chars) {
        Ok(providers) => {
            let rest = input.substring_char(chars.len(), chars.len());
            Ok((rest, Script { providers }))
        },
        Err(e) => Err(e),
    }
}

/// Parses a script: its providers in the order in which they stand in the
/// text, or the first place at which a provider is malformed.
pub fn parse(input: &str) -> (r: Result<Script, ParseError>)
    ensures
        match r {
            Ok(script) => script_of(input@) == Ok::<ScriptView, Failure>(script@)
                && script@.well_formed(),
            Err(e) => script_of(input@) is Err && e.reports(script_of(input@)->Err_0, input@),
        },
{
    match script(input) {
        Ok((_, script)) => Ok(script),
        Err(e) => Err(e),
    }
}

} // verus!
