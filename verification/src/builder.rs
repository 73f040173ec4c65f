//! The settings of one generation pass, and the gathering of its sources.

use vstd::prelude::*;
use crate::ast::{provider_views, Provider, ProviderView, Script};
use crate::parser::{parse, script_of, Failure, ParseError};
use crate::text::{join, join_texts, texts};

verus! {

/// What a builder holds.
pub struct BuilderView {
    /// The paths of the definition files, in the order in which they were given.
    pub d_files: Seq<Seq<char>>,
    /// Whether the generated header is kept.
    pub keep_h_file: bool,
    /// Whether the generated native source is kept.
    pub keep_c_file: bool,
}

/// The settings of one generation pass.
#[derive(Debug)]
pub struct Builder {
    d_files: Vec<String>,
    keep_h_file: bool,
    keep_c_file: bool,
}

impl View for Builder {
    type V = BuilderView;

    closed spec fn view(&self) -> BuilderView {
        BuilderView {
            d_files: texts(self.d_files@),
            keep_h_file: self.keep_h_file,
            keep_c_file: self.keep_c_file,
        }
    }
}

impl Default for Builder {
    fn default() -> (r: Self)
        ensures
            r@ == (BuilderView { d_files: Seq::empty(), keep_h_file: false, keep_c_file: false }),
    {
        Builder::new()
    }
}

impl Builder {
    /// A builder with no file, which keeps neither the header nor the native source.
    pub fn new() -> (r: Self)
        ensures
            r@ == (BuilderView { d_files: Seq::empty(), keep_h_file: false, keep_c_file: false }),
    {
        let r = Builder { d_files: Vec::new(), keep_h_file: false, keep_c_file: false };
        assert(texts(r.d_files@) =~= Seq::<Seq<char>>::empty());
        r
    }

    /// Adds the path of a definition file behind those that the builder holds.
    pub fn file(&mut self, path: &str) -> (r: &mut Self)
        ensures
            r@ == (BuilderView { d_files: old(self)@.d_files.push(path@), ..old(self)@ }),
            *final(self) == *final(r),
    {
        self.d_files.push(String::from_str(path));
        assert(texts(self.d_files@) =~= texts(old(self).d_files@).push(path@));
        self
    }

    /// Adds the paths of definition files, in their order, behind those that the builder holds.
    pub fn files(&mut self, paths: &Vec<String>) -> (r: &mut Self)
        ensures
            r@ == (BuilderView { d_files: old(self)@.d_files + texts(paths@), ..old(self)@ }),
            *final(self) == *final(r),
    {
        let mut i: usize = 0;
        assert(texts(self.d_files@) =~= texts(old(self).d_files@) + texts(paths@).take(0));
        while i < paths.len()
            invariant
                i <= paths.len(),
                self.keep_h_file == old(self).keep_h_file,
                self.keep_c_file == old(self).keep_c_file,
                texts(self.d_files@) == texts(old(self).d_files@) + texts(paths@).take(i as int),
            decreases paths.len() - i,
        {
            let ghost before = texts(self.d_files@);
            self.d_files.push(paths[i].clone());
            proof {
                assert(texts(self.d_files@) =~= before.push(paths@[i as int]@));
                assert(texts(paths@).take(i + 1) =~= texts(paths@).take(i as int).push(
                    paths@[i as int]@,
                ));
                assert(texts(self.d_files@) =~= texts(old(self).d_files@) + texts(paths@).take(
                    i + 1,
                ));
            }
            i += 1;
        }
        assert(texts(paths@).take(paths.len() as int) =~= texts(paths@));
        self
    }

    /// Sets whether the generated header is kept.
    pub fn keep_h_file(&mut self, keep: bool) -> (r: &mut Self)
        ensures
            r@ == (BuilderView { keep_h_file: keep, ..old(self)@ }),
            *final(self) == *final(r),
    {
        self.keep_h_file = keep;
        self
    }

    /// Sets whether the generated native source is kept.
    pub fn keep_c_file(&mut self, keep: bool) -> (r: &mut Self)
        ensures
            r@ == (BuilderView { keep_c_file: keep, ..old(self)@ }),
            *final(self) == *final(r),
    {
        self.keep_c_file = keep;
        self
    }

    /// The paths of the definition files, in the order in which they were given.
    pub fn d_files(&self) -> (r: &Vec<String>)
        ensures
            texts(r@) == self@.d_files,
    {
        &self.d_files
    }

    /// Whether the generated header is kept.
    pub fn keeps_h_file(&self) -> (r: bool)
        ensures
            r == self@.keep_h_file,
    {
        self.keep_h_file
    }

    /// Whether the generated native source is kept.
    pub fn keeps_c_file(&self) -> (r: bool)
        ensures
            r == self@.keep_c_file,
    {
        self.keep_c_file
    }
}

/// The providers of the first `n` texts, in order, or the failure of the first
/// text that is malformed, with its position among the texts.
pub open spec fn providers_of(contents: Seq<Seq<char>>, n: int) -> Result<
    Seq<ProviderView>,
    (int, Failure),
>
    decreases n,
{
    if n <= 0 {
        Ok(Seq::empty())
    } else {
        match providers_of(contents, n - 1) {
            Err(e) => Err(e),
            Ok(before) => match script_of(contents[n - 1]) {
                Err(f) => Err((n - 1, f)),
                Ok(script) => Ok(before + script.providers),
            },
        }
    }
}

/// A failure among the first texts is the failure of all.
pub proof fn lemma_providers_of_fails(contents: Seq<Seq<char>>, k: int, n: int)
    requires
        0 <= k <= n,
        providers_of(contents, k) is Err,
    ensures
        providers_of(contents, n) == providers_of(contents, k),
    decreases n - k,
{
    if k < n {
        lemma_providers_of_fails(contents, k, n - 1);
    }
}

/// What the definition files of one pass hold.
#[derive(Debug, PartialEq)]
pub struct Sources {
    /// The texts of all files, one after another: what the header is generated from.
    pub text: String,
    /// The providers of all files, in order.
    pub script: Script,
}

/// Gathers the contents of the definition files of one pass: their texts one
/// after another, and their providers, each file parsed on its own. Where a
/// file is malformed, the first such file's position and error come back.
pub fn gather(contents: &Vec<String>) -> (r: Result<Sources, (usize, ParseError)>)
    ensures
        match r {
            Ok(sources) => sources.text@ == join(texts(contents@), Seq::empty()) && providers_of(
                texts(contents@),
                contents@.len() as int,
            ) == Ok::<Seq<ProviderView>, (int, Failure)>(sources.script@.providers),
            Err((at, e)) => at < contents@.len() && providers_of(
                texts(contents@),
                contents@.len() as int,
            ) == Err::<Seq<ProviderView>, (int, Failure)>(
                (at as int, script_of(contents@[at as int]@)->Err_0),
            ) && script_of(contents@[at as int]@) is Err && e.reports(
                script_of(contents@[at as int]@)->Err_0,
                contents@[at as int]@,
            ),
        },
{
    let mut providers: Vec<Provider> = Vec::new();
    let mut i: usize = 0;
    proof {
        assert(provider_views(providers@) =~= Seq::<ProviderView>::empty());
    }
    while i < contents.len()
        invariant
            i <= contents.len(),
            providers_of(texts(contents@), i as int) == Ok::<Seq<ProviderView>, (int, Failure)>(
                provider_views(providers@),
            ),
        decreases contents.len() - i,
    {
        let ghost before = provider_views(providers@);
        match parse(contents[i].as_str()) {
            Err(e) => {
                proof {
                    lemma_providers_of_fails(texts(contents@), i + 1, contents@.len() as int);
                }
                return Err((i, e));
            },
            Ok(script) => {
                let mut found = script.providers;
                let ghost added = provider_views(found@);
                providers.append(&mut found);
                proof {
                    assert(provider_views(providers@) =~= before + added);
                }
            },
        }
        i += 1;
    }
    proof {
        reveal_strlit("");
        assert(""@ =~= Seq::<char>::empty());
    }
    let text = join_texts(contents, "");
    Ok(Sources { text, script: Script { providers } })
}

} // verus!
