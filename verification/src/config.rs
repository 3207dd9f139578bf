//! Run configuration and the rule that selects creators.

use std::path::PathBuf;
use vstd::prelude::*;
use vstd::string::*;

verus! {

/// How a source file is placed at its destination.
#[derive(Debug, Clone, Copy, PartialEq, Eq, Structural)]
pub enum TransformMethod {
    /// Duplicate the bytes and keep the source.
    Copy,
    /// Relocate the file; the source is gone afterwards.
    Move,
    /// Add a directory entry for the same data.
    Hardlink,
}

impl Default for TransformMethod {
    fn default() -> (method: Self)
        ensures
            method == TransformMethod::Copy,
    {
        TransformMethod::Copy
    }
}

impl TransformMethod {
    /// The name of the method as it is shown.
    pub open spec fn name(self) -> Seq<char> {
        match self {
            TransformMethod::Copy => "Copy"@,
            TransformMethod::Move => "Move"@,
            TransformMethod::Hardlink => "Hardlink"@,
        }
    }

    /// The name of the method as it is shown.
    pub fn to_string(&self) -> (text: String)
        ensures
            text@ == self.name(),
    {
        match self {
            TransformMethod::Copy => String::from_str("Copy"),
            TransformMethod::Move => String::from_str("Move"),
            TransformMethod::Hardlink => String::from_str("Hardlink"),
        }
    }
}

/// The content of a list of names.
pub open spec fn names_view(names: Seq<String>) -> Seq<Seq<char>> {
    names.map_values(|name: String| name@)
}

/// Whether a creator is taken: the allow-list, where it names anyone, must
/// name the creator, and the deny-list must not. A creator on both lists is
/// left out.
pub open spec fn accepts(
    whitelist: Seq<Seq<char>>,
    blacklist: Seq<Seq<char>>,
    creator: Seq<char>,
) -> bool {
    (whitelist.len() == 0 || whitelist.contains(creator)) && !blacklist.contains(creator)
}

/// Whether `name` stands in `names`.
pub fn contains_name(names: &Vec<String>, name: &String) -> (found: bool)
    ensures
        found == names_view(names@).contains(name@),
{
    let mut i: usize = 0;
    while i < names.len()
        invariant
            i <= names.len(),
            forall|k: int| 0 <= k < i ==> names_view(names@)[k] != name@,
        decreases names.len() - i,
    {
        if names[i] == *name {
            assert(names_view(names@)[i as int] == name@);
            return true;
        }
        i = i + 1;
    }
    false
}

/// The settings of one run.
#[derive(Debug)]
pub struct Config {
    input: PathBuf,
    output: PathBuf,
    overwrite: bool,
    transform: TransformMethod,
    whitelist: Vec<String>,
    blacklist: Vec<String>,
    limit: usize,
}

/// The mathematical content of a [`Config`].
pub struct ConfigView {
    /// The directory that holds one directory per creator.
    pub input: PathBuf,
    /// The directory of the archive.
    pub output: PathBuf,
    /// Whether existing files are written over.
    pub overwrite: bool,
    pub transform: TransformMethod,
    /// Creators to take; empty for all.
    pub whitelist: Seq<Seq<char>>,
    /// Creators to leave out.
    pub blacklist: Seq<Seq<char>>,
    /// How many transfers may run at a time.
    pub limit: usize,
}

impl Config {
    /// The settings.
    pub closed spec fn view(&self) -> ConfigView {
        ConfigView {
            input: self.input,
            output: self.output,
            overwrite: self.overwrite,
            transform: self.transform,
            whitelist: names_view(self.whitelist@),
            blacklist: names_view(self.blacklist@),
            limit: self.limit,
        }
    }

    /// A configuration with the given settings.
    pub fn new(
        input: PathBuf,
        output: PathBuf,
        overwrite: bool,
        transform: TransformMethod,
        whitelist: Vec<String>,
        blacklist: Vec<String>,
        limit: usize,
    ) -> (config: Self)
        ensures
            config@ == (ConfigView {
                input,
                output,
                overwrite,
                transform,
                whitelist: names_view(whitelist@),
                blacklist: names_view(blacklist@),
                limit,
            }),
    {
        Config { input, output, overwrite, transform, whitelist, blacklist, limit }
    }

    pub fn input(&self) -> (input: &PathBuf)
        ensures
            *input == self@.input,
    {
        &self.input
    }

    pub fn overwrite(&self) -> (overwrite: bool)
        ensures
            overwrite == self@.overwrite,
    {
        self.overwrite
    }

    pub fn transform(&self) -> (transform: TransformMethod)
        ensures
            transform == self@.transform,
    {
        self.transform
    }

    pub fn output(&self) -> (output: &PathBuf)
        ensures
            *output == self@.output,
    {
        &self.output
    }

    pub fn limit(&self) -> (limit: usize)
        ensures
            limit == self@.limit,
    {
        self.limit
    }

    /// Whether `creator` is taken, as [`accepts`] says.
    pub fn filter_creator(&self, creator: &String) -> (accept: bool)
        ensures
            accept == accepts(self@.whitelist, self@.blacklist, creator@),
    {
        let mut accept = true;
        accept = accept && (self.whitelist.len() == 0 || contains_name(&self.whitelist, creator));
        accept = accept && !contains_name(&self.blacklist, creator);
        accept
    }
}

} // verus!
