//! The manifest: per-platform runtime descriptors and jar dependencies.

use crate::device::{Arch, Device, OS};
use crate::text::{replace_all, replaced, split_words, texts, words};
use vstd::prelude::*;

verus! {

#[verifier::external_type_specification]
#[verifier::external_body]
pub struct ExUrl(url::Url);

#[verifier::external_type_specification]
#[verifier::external_body]
pub struct ExParseError(url::ParseError);

/// Whether the url crate accepts `text` as an absolute URL.
pub uninterp spec fn url_accepts(text: Seq<char>) -> bool;

/// Relies on url's `Url::parse`: whether it succeeds depends on the text alone.
#[verifier::external_body]
fn parse_url(text: &str) -> (r: Result<url::Url, url::ParseError>)
    ensures
        r is Ok <==> url_accepts(text@),
{
    url::Url::parse(text)
}

/// Why a manifest value could not be used.
#[derive(Clone, Copy, Debug, PartialEq, Eq, Structural)]
pub enum ManifestError {
    /// A source address is not a valid absolute URL.
    InvalidUrl,
}

/// Parses a source address, keeping the library's own error.
fn source_url(text: &String) -> (r: Result<url::Url, ManifestError>)
    ensures
        r is Ok <==> url_accepts(text@),
        r is Err ==> r->Err_0 == ManifestError::InvalidUrl,
{
    match parse_url(text.as_str()) {
        Ok(u) => Ok(u),
        Err(_) => Err(ManifestError::InvalidUrl),
    }
}

/// A named jar and the address it is fetched from.
#[derive(Clone, Debug)]
pub struct Dependency {
    pub name: String,
    pub url: String,
}

/// Where the runtime lives, where its archive comes from, and how it is launched.
#[derive(Clone, Debug)]
pub struct Java {
    pub jre: String,
    pub url: String,
    pub main: String,
    pub command: String,
    pub args: Vec<String>,
}

/// One manifest entry: a target device, its runtime, its install directory
/// and its dependencies, in declared order.
#[derive(Clone, Debug)]
pub struct Platform {
    pub os: OS,
    pub arch: Arch,
    pub java: Java,
    pub directory: String,
    pub dependencies: Vec<Dependency>,
}

/// All declared platform entries, in declared order.
#[derive(Clone, Debug)]
pub struct Manifest {
    pub platforms: Vec<Platform>,
}

/// A program and its arguments, ready to be run.
#[derive(Clone, Debug)]
pub struct CommandLine {
    pub program: String,
    pub args: Vec<String>,
}

/// The file a dependency is stored in: `{directory}/{name}.jar`.
pub open spec fn dependency_path(directory: Seq<char>, name: Seq<char>) -> Seq<char> {
    directory + "/"@ + name + ".jar"@
}

/// Whether a manifest entry targets `device`.
pub open spec fn targets(platform: Platform, device: Device) -> bool {
    platform.os == device.os && platform.arch == device.arch
}

/// A launch-command token with `$jre`, `$directory` and `$main` replaced, in that order.
pub open spec fn substitute(
    token: Seq<char>,
    jre: Seq<char>,
    directory: Seq<char>,
    main: Seq<char>,
) -> Seq<char> {
    replaced(replaced(replaced(token, "$jre"@, jre), "$directory"@, directory), "$main"@, main)
}

/// The launch arguments: each token with its placeholders substituted.
pub open spec fn launch_args(
    tokens: Seq<Seq<char>>,
    jre: Seq<char>,
    directory: Seq<char>,
    main: Seq<char>,
) -> Seq<Seq<char>> {
    tokens.map_values(|t: Seq<char>| substitute(t, jre, directory, main))
}

impl Dependency {
    /// The parsed source address.
    pub fn get_url(&self) -> (r: Result<url::Url, ManifestError>)
        ensures
            r is Ok <==> url_accepts(self.url@),
            r is Err ==> r->Err_0 == ManifestError::InvalidUrl,
    {
        source_url(&self.url)
    }

    /// The file this dependency is stored in on `platform`.
    pub fn get_path(&self, platform: &Platform) -> (r: String)
        ensures
            r@ == dependency_path(platform.directory@, self.name@),
    {
        let mut path = platform.directory.clone();
        path.append("/");
        path.append(self.name.as_str());
        path.append(".jar");
        path
    }
}

impl Platform {
    /// The parsed address of the runtime archive.
    pub fn get_java_url(&self) -> (r: Result<url::Url, ManifestError>)
        ensures
            r is Ok <==> url_accepts(self.java.url@),
            r is Err ==> r->Err_0 == ManifestError::InvalidUrl,
    {
        source_url(&self.java.url)
    }

    /// The runtime's install directory, as an owned path.
    pub fn get_java_path(&self) -> (r: String)
        ensures
            r@ == self.java.jre@,
    {
        self.java.jre.clone()
    }

    /// The runtime's install directory.
    pub fn get_java_folder(&self) -> (r: &String)
        ensures
            r@ == self.java.jre@,
    {
        &self.java.jre
    }
    /// The launch command: the first word of the command template is the
    /// program, and each later word, with its placeholders substituted, is an
    /// argument. `None` where the template holds no word.
    pub fn get_command(&self) -> (r: Option<CommandLine>)
        ensures
            r is None <==> words(self.java.command@).len() == 0,
            r is Some ==> r->0.program@ == words(self.java.command@)[0],
            r is Some ==> texts(r->0.args@) == launch_args(
                words(self.java.command@).skip(1),
                self.java.jre@,
                self.directory@,
                self.java.main@,
            ),
    {
        let split = split_words(self.java.command.as_str());
        let ghost all = words(self.java.command@);
        if split.len() == 0 {
            return None;
        }
        assert(texts(split@)[0] == split@[0]@);
        let program = split[0].clone();
        proof {
            reveal_strlit("$jre");
            reveal_strlit("$directory");
            reveal_strlit("$main");
        }
        let mut args: Vec<String> = Vec::new();
        let mut k: usize = 1;
        while k < split.len()
            invariant
                1 <= k <= split@.len(),
                texts(split@) == all,
                "$jre"@.len() > 0,
                "$directory"@.len() > 0,
                "$main"@.len() > 0,
                texts(args@) == launch_args(
                    all.subrange(1, k as int),
                    self.java.jre@,
                    self.directory@,
                    self.java.main@,
                ),
            decreases split@.len() - k,
        {
            assert(texts(split@)[k as int] == split@[k as int]@);
            let jre = replace_all(split[k].as_str(), "$jre", self.java.jre.as_str());
            let directory = replace_all(jre.as_str(), "$directory", self.directory.as_str());
            let arg = replace_all(directory.as_str(), "$main", self.java.main.as_str());
            assert(all[k as int] == split@[k as int]@);
            assert(jre@ == replaced(all[k as int], "$jre"@, self.java.jre@));
            let ghost before = args@;
            args.push(arg);
            assert(texts(args@) =~= texts(before).push(arg@));
            assert(launch_args(all.subrange(1, k + 1), self.java.jre@, self.directory@, self.java.main@)
                =~= launch_args(
                all.subrange(1, k as int),
                self.java.jre@,
                self.directory@,
                self.java.main@,
            ).push(arg@));
            k = k + 1;
        }
        assert(all.subrange(1, k as int) =~= all.skip(1));
        Some(CommandLine { program, args })
    }
}

impl Manifest {
    /// The first entry, in declared order, that targets `device`.
    pub fn get_platform(&self, device: Device) -> (r: Option<&Platform>)
        ensures
            r is None <==> forall|i: int|
                0 <= i < self.platforms@.len() ==> !targets(#[trigger] self.platforms@[i], device),
            r is Some ==> exists|i: int|
                0 <= i < self.platforms@.len() && *r->0 == self.platforms@[i] && targets(
                    self.platforms@[i],
                    device,
                ) && forall|j: int| 0 <= j < i ==> !targets(#[trigger] self.platforms@[j], device),
    {
        let mut i: usize = 0;
        while i < self.platforms.len()
            invariant
                i <= self.platforms@.len(),
                forall|j: int| 0 <= j < i ==> !targets(#[trigger] self.platforms@[j], device),
            decreases self.platforms@.len() - i,
        {
            let platform = &self.platforms[i];
            if platform.os == device.os && platform.arch == device.arch {
                return Some(platform);
            }
            i = i + 1;
        }
        None
    }
}

} // verus!
