//! High-level requirements for staging files.
//!
//! Every source descriptor here holds plain, already-rendered strings and
//! translates itself into concrete [`crate::action::Action`]s for one target
//! directory.  Glob sources walk the filesystem through an outside walker,
//! so only their pre- and post-walk behaviour is pinned down exactly; every
//! other descriptor's translation is an exact function of its fields.

use vstd::prelude::*;

use crate::action;
use crate::action::{Action, ActionSpec};
use crate::error::{cause_error, context_error, ErrorKind, ErrorSpec, Errors};
use crate::paths::{
    check_absolute, check_bare_name, check_prefix, basename, is_absolute, is_bare_name, has_prefix,
    join_path, rel_to, spec_basename, spec_join_path, spec_rel_to,
};

verus! {

/// Mathematical model of a [`SourceFile`].
pub struct SourceFileSpec {
    /// Absolute path of the file to copy.
    pub path: Seq<char>,
    /// The name to stage the copy under, when given.
    pub rename: Option<Seq<char>>,
    /// Names of symbolic links to the staged copy, in the same target
    /// directory.
    pub symlink: Seq<Seq<char>>,
}

/// Mathematical model of a [`SourceFiles`].
pub struct SourceFilesSpec {
    /// Absolute root the patterns are matched under.
    pub path: Seq<char>,
    /// The glob patterns.
    pub pattern: Seq<Seq<char>>,
    /// Whether the walk follows symbolic links.
    pub follow_links: bool,
    /// Whether zero matched files is acceptable.
    pub allow_empty: bool,
}

/// Mathematical model of a [`Symlink`].
pub struct SymlinkSpec {
    /// The path the staged link will point at.
    pub target: Seq<char>,
    /// The name to stage the link under, when given.
    pub rename: Option<Seq<char>>,
}

/// Mathematical model of a [`Source`].
pub enum SourceSpec {
    /// The target directory itself.
    Directory,
    /// One file.
    File(SourceFileSpec),
    /// A glob-selected set of files.
    Files(SourceFilesSpec),
    /// One symbolic link.
    Link(SymlinkSpec),
}

/// The staged name of a file source: the rename when given, the basename of
/// the source path otherwise.
pub open spec fn spec_file_name(f: SourceFileSpec) -> Seq<char> {
    match f.rename {
        Some(n) => n,
        None => spec_basename(f.path),
    }
}

/// The staged name of a symlink source: the rename when given, the basename
/// of the link target otherwise.
pub open spec fn spec_link_name(l: SymlinkSpec) -> Seq<char> {
    match l.rename {
        Some(n) => n,
        None => spec_basename(l.target),
    }
}

/// The first of `aliases` that is not a bare filename, if any.
pub open spec fn first_invalid_alias(aliases: Seq<Seq<char>>) -> Option<Seq<char>>
    decreases aliases.len(),
{
    if aliases.len() == 0 {
        None
    } else if !is_bare_name(aliases[0]) {
        Some(aliases[0])
    } else {
        first_invalid_alias(aliases.drop_first())
    }
}

/// The symlink actions for `aliases`, each placed beside the staged copy at
/// `copy_to` in `dir` and pointing at that copy.
pub open spec fn spec_alias_links(aliases: Seq<Seq<char>>, dir: Seq<char>, copy_to: Seq<char>) -> Seq<
    ActionSpec,
> {
    aliases.map_values(|a: Seq<char>| ActionSpec::Symlink { staged: spec_join_path(dir, a), target: copy_to })
}

/// What translating a file source for `target_dir` yields: its copy action
/// followed by one symlink action per alias, or the error for a relative
/// source path, a staged name with directory components, or such an alias.
pub open spec fn spec_file_build(f: SourceFileSpec, target_dir: Seq<char>) -> Result<
    Seq<ActionSpec>,
    ErrorSpec,
> {
    if !is_absolute(f.path) {
        Err(context_error(ErrorKind::HarvestingFailed, "SourceFile path must be absolute: "@ + f.path))
    } else if !is_bare_name(spec_file_name(f)) {
        Err(context_error(
            ErrorKind::InvalidConfiguration,
            "SourceFile rename must not change directories: "@ + spec_file_name(f),
        ))
    } else {
        match first_invalid_alias(f.symlink) {
            Some(a) => Err(context_error(
                ErrorKind::InvalidConfiguration,
                "SourceFile symlink must not change directories: "@ + a,
            )),
            None => {
                let copy_to = spec_join_path(target_dir, spec_file_name(f));
                Ok(
                    seq![ActionSpec::CopyFile { staged: copy_to, source: f.path }]
                        + spec_alias_links(f.symlink, target_dir, copy_to),
                )
            },
        }
    }
}

/// What translating a symlink source for `target_dir` yields: one symlink
/// action, or the error for a staged name with directory components.
pub open spec fn spec_link_build(l: SymlinkSpec, target_dir: Seq<char>) -> Result<
    Seq<ActionSpec>,
    ErrorSpec,
> {
    if !is_bare_name(spec_link_name(l)) {
        Err(context_error(
            ErrorKind::InvalidConfiguration,
            "Symlink rename must not change directories: "@ + spec_link_name(l),
        ))
    } else {
        Ok(seq![ActionSpec::Symlink { staged: spec_join_path(target_dir, spec_link_name(l)), target: l.target }])
    }
}

/// What translating a directory source for `target_dir` yields: the one
/// action creating the target directory itself.
pub open spec fn spec_dir_build(target_dir: Seq<char>) -> Seq<ActionSpec> {
    seq![ActionSpec::CreateDirectory { staged: target_dir }]
}

/// Specifies a file to be staged into the target directory.
#[derive(Debug, Clone)]
pub struct SourceFile {
    path: String,
    rename: Option<String>,
    symlink: Vec<String>,
}

impl View for SourceFile {
    type V = SourceFileSpec;

    closed spec fn view(&self) -> SourceFileSpec {
        SourceFileSpec {
            path: self.path@,
            rename: self.rename.deep_view(),
            symlink: self.symlink.deep_view(),
        }
    }
}

impl SourceFile {
    /// Specifies a file to be staged into the target directory.
    ///
    /// - `source`: full path of the file to be copied into the target
    ///   directory.
    pub fn new(source: String) -> (r: Self)
        ensures
            r@ == (SourceFileSpec {
                path: source@,
                rename: None,
                symlink: Seq::<Seq<char>>::empty(),
            }),
    {
        let r = Self { path: source, rename: None, symlink: Vec::new() };
        proof {
            assert(r@.symlink =~= Seq::<Seq<char>>::empty());
        }
        r
    }

    /// Specifies the name the staged copy should be given.  Default is the
    /// filename of the source file.
    pub fn rename(self, filename: Option<String>) -> (r: Self)
        ensures
            r@ == (SourceFileSpec { rename: filename.deep_view(), ..self@ }),
    {
        Self { path: self.path, rename: filename, symlink: self.symlink }
    }

    /// Specifies names of symbolic links to the staged copy, placed in the
    /// same target directory.
    pub fn push_symlinks(self, symlinks: Vec<String>) -> (r: Self)
        ensures
            r@ == (SourceFileSpec {
                symlink: self@.symlink + symlinks.deep_view(),
                ..self@
            }),
    {
        let mut sym = self.symlink;
        let ghost pre = sym.deep_view();
        let mut more = symlinks;
        sym.append(&mut more);
        let r = Self { path: self.path, rename: self.rename, symlink: sym };
        proof {
            assert(r@.symlink =~= pre + symlinks.deep_view());
        }
        r
    }

    /// Translates this source for `target_dir`, as [`spec_file_build`]
    /// describes it: an error is returned alone, in a one-element aggregate.
    pub fn build(&self, target_dir: &str) -> (r: Result<Vec<Action>, Errors>)
        ensures
            match spec_file_build(self@, target_dir@) {
                Ok(acts) => r matches Ok(out) && out.deep_view() == acts,
                Err(e) => r matches Err(es) && es@ == seq![e],
            },
    {
        if !check_absolute(self.path.as_str()) {
            let msg = String::from_str("SourceFile path must be absolute: ").concat(
                self.path.as_str(),
            );
            return Err(Errors::with_error(ErrorKind::HarvestingFailed.error().set_context(msg)));
        }
        let name: &str = match &self.rename {
            Some(n) => n.as_str(),
            None => basename(self.path.as_str()),
        };
        proof {
            assert(name@ == spec_file_name(self@));
        }
        if !check_bare_name(name) {
            let msg = String::from_str("SourceFile rename must not change directories: ").concat(
                name,
            );
            proof {
                assert(msg@ == "SourceFile rename must not change directories: "@
                    + spec_file_name(self@));
            }
            let err = ErrorKind::InvalidConfiguration.error().set_context(msg);
            proof {
                assert(err@ == context_error(
                    ErrorKind::InvalidConfiguration,
                    "SourceFile rename must not change directories: "@ + spec_file_name(self@),
                ));
            }
            return Err(Errors::with_error(err));
        }
        let ghost aliases = self@.symlink;
        let mut j: usize = 0;
        while j < self.symlink.len()
            invariant
                j <= self.symlink.len(),
                aliases == self@.symlink,
                self.symlink.deep_view() == aliases,
                is_absolute(self@.path),
                is_bare_name(spec_file_name(self@)),
                forall|k: int| 0 <= k < j ==> is_bare_name(aliases[k]),
            decreases self.symlink.len() - j,
        {
            if !check_bare_name(self.symlink[j].as_str()) {
                proof {
                    lemma_first_invalid_from(aliases, j as int);
                    assert(aliases.skip(j as int)[0] == aliases[j as int]);
                    assert(first_invalid_alias(self@.symlink) == Some(aliases[j as int]));
                }
                let msg = String::from_str("SourceFile symlink must not change directories: ")
                    .concat(self.symlink[j].as_str());
                proof {
                    assert(msg@ == "SourceFile symlink must not change directories: "@
                        + aliases[j as int]);
                }
                let err = ErrorKind::InvalidConfiguration.error().set_context(msg);
                proof {
                    assert(err@ == context_error(
                        ErrorKind::InvalidConfiguration,
                        "SourceFile symlink must not change directories: "@ + aliases[j as int],
                    ));
                }
                return Err(Errors::with_error(err));
            }
            j = j + 1;
        }
        proof {
            lemma_first_invalid_from(aliases, aliases.len() as int);
            assert(aliases.skip(aliases.len() as int) =~= Seq::<Seq<char>>::empty());
        }
        let copy_to = join_path(target_dir, name);
        let ghost copy_tov = copy_to@;
        let mut acts: Vec<Action> = Vec::new();
        acts.push(Action::CopyFile(action::CopyFile::new(copy_to.clone(), self.path.clone())));
        let ghost head = seq![ActionSpec::CopyFile { staged: copy_tov, source: self@.path }];
        proof {
            assert(acts.deep_view() =~= head + spec_alias_links(
                aliases.take(0),
                target_dir@,
                copy_tov,
            ));
        }
        let mut j: usize = 0;
        while j < self.symlink.len()
            invariant
                j <= self.symlink.len(),
                aliases == self@.symlink,
                self.symlink.deep_view() == aliases,
                copy_tov == copy_to@,
                acts.deep_view() =~= head + spec_alias_links(
                    aliases.take(j as int),
                    target_dir@,
                    copy_tov,
                ),
            decreases self.symlink.len() - j,
        {
            let ghost pre_acts = acts.deep_view();
            let staged = join_path(target_dir, self.symlink[j].as_str());
            let ghost stagedv = staged@;
            acts.push(Action::Symlink(action::Symlink::new(staged, copy_to.clone())));
            j = j + 1;
            proof {
                assert(stagedv == spec_join_path(target_dir@, aliases[j as int - 1]));
                assert(acts.deep_view() =~= pre_acts.push(
                    ActionSpec::Symlink { staged: stagedv, target: copy_tov },
                ));
                assert(spec_alias_links(aliases.take(j as int), target_dir@, copy_tov)
                    =~= spec_alias_links(aliases.take(j as int - 1), target_dir@, copy_tov).push(
                    ActionSpec::Symlink {
                        staged: spec_join_path(target_dir@, aliases[j as int - 1]),
                        target: copy_tov,
                    },
                ));
                assert(acts.deep_view() =~= head + spec_alias_links(
                    aliases.take(j as int),
                    target_dir@,
                    copy_tov,
                ));
            }
        }
        proof {
            assert(aliases.take(aliases.len() as int) =~= aliases);
            assert(copy_tov == spec_join_path(target_dir@, spec_file_name(self@)));
            assert(acts.deep_view() =~= seq![
                ActionSpec::CopyFile { staged: copy_tov, source: self@.path },
            ] + spec_alias_links(self@.symlink, target_dir@, copy_tov));
        }
        Ok(acts)
    }
}

/// Once the first `i` aliases are bare filenames, the first invalid alias
/// of the whole sequence is that of the rest.
proof fn lemma_first_invalid_from(aliases: Seq<Seq<char>>, i: int)
    requires
        0 <= i <= aliases.len(),
        forall|k: int| 0 <= k < i ==> is_bare_name(aliases[k]),
    ensures
        first_invalid_alias(aliases) == first_invalid_alias(aliases.skip(i)),
    decreases i,
{
    if i > 0 {
        lemma_first_invalid_from(aliases, i - 1);
        assert(aliases.skip(i - 1).drop_first() =~= aliases.skip(i));
        assert(aliases.skip(i - 1)[0] == aliases[i - 1]);
    } else {
        assert(aliases.skip(0) =~= aliases);
    }
}

/// Specifies a symbolic link to be staged into the target directory.
#[derive(Debug, Clone)]
pub struct Symlink {
    target: String,
    rename: Option<String>,
}

impl View for Symlink {
    type V = SymlinkSpec;

    closed spec fn view(&self) -> SymlinkSpec {
        SymlinkSpec { target: self.target@, rename: self.rename.deep_view() }
    }
}

impl Symlink {
    /// Specifies a symbolic link to be staged into the target directory.
    ///
    /// - `target`: the literal path for the link to point at.
    pub fn new(target: String) -> (r: Self)
        ensures
            r@ == (SymlinkSpec { target: target@, rename: None }),
    {
        Self { target, rename: None }
    }

    /// Specifies the name the staged link should be given.  Default is the
    /// filename of the link target.
    pub fn rename(self, filename: Option<String>) -> (r: Self)
        ensures
            r@ == (SymlinkSpec { rename: filename.deep_view(), ..self@ }),
    {
        Self { target: self.target, rename: filename }
    }

    /// Translates this source for `target_dir`, as [`spec_link_build`]
    /// describes it: an error is returned alone, in a one-element aggregate.
    pub fn build(&self, target_dir: &str) -> (r: Result<Vec<Action>, Errors>)
        ensures
            match spec_link_build(self@, target_dir@) {
                Ok(acts) => r matches Ok(out) && out.deep_view() == acts,
                Err(e) => r matches Err(es) && es@ == seq![e],
            },
    {
        let name: &str = match &self.rename {
            Some(n) => n.as_str(),
            None => basename(self.target.as_str()),
        };
        proof {
            assert(name@ == spec_link_name(self@));
        }
        if !check_bare_name(name) {
            let msg = String::from_str("Symlink rename must not change directories: ").concat(name);
            return Err(
                Errors::with_error(ErrorKind::InvalidConfiguration.error().set_context(msg)),
            );
        }
        let staged = join_path(target_dir, name);
        let ghost stagedv = staged@;
        let mut acts: Vec<Action> = Vec::new();
        acts.push(Action::Symlink(action::Symlink::new(staged, self.target.clone())));
        proof {
            assert(acts.deep_view() =~= seq![ActionSpec::Symlink { staged: stagedv, target: self@.target }]);
        }
        Ok(acts)
    }
}

/// Specifies that the target directory itself is to be created.
#[derive(Debug, Clone)]
pub struct Directory {}

impl View for Directory {
    type V = ();

    open spec fn view(&self) -> () {
        ()
    }
}

impl Directory {
    /// Specifies that the target directory itself is to be created.
    pub fn new() -> (r: Self) {
        Self {  }
    }

    /// Translates this source for `target_dir`: the one action creating the
    /// target directory.
    pub fn build(&self, target_dir: &str) -> (r: Result<Vec<Action>, Errors>)
        ensures
            r matches Ok(out) && out.deep_view() == spec_dir_build(target_dir@),
    {
        let mut acts: Vec<Action> = Vec::new();
        acts.push(
            Action::CreateDirectory(action::CreateDirectory::new(String::from_str(target_dir))),
        );
        proof {
            assert(acts.deep_view() =~= spec_dir_build(target_dir@));
        }
        Ok(acts)
    }
}

/// One entry of a filesystem walk, reduced to plain values.
#[derive(Debug, Clone)]
pub enum WalkEntry {
    /// A matched path and whether it is a directory.
    Found(String, bool),
    /// The error text for an entry that could not be read.
    Failed(String),
}

/// Mathematical model of a [`WalkEntry`].
pub enum WalkEntrySpec {
    /// A matched path and whether it is a directory.
    Found(Seq<char>, bool),
    /// The error text for an entry that could not be read.
    Failed(Seq<char>),
}

impl View for WalkEntry {
    type V = WalkEntrySpec;

    open spec fn view(&self) -> WalkEntrySpec {
        match self {
            WalkEntry::Found(p, d) => WalkEntrySpec::Found(p@, *d),
            WalkEntry::Failed(m) => WalkEntrySpec::Failed(m@),
        }
    }
}

impl DeepView for WalkEntry {
    type V = WalkEntrySpec;

    open spec fn deep_view(&self) -> WalkEntrySpec {
        self.view()
    }
}

/// Relies on globwalk's `GlobWalkerBuilder` (and walkdir beneath it): walks
/// the tree under `root`, yielding for every match of one of `patterns` the
/// entry's full path and whether it is a directory, or the error text for an
/// entry that could not be read; `Err` is the text of an invalid-pattern
/// error.  What comes back depends on the filesystem, so nothing is
/// promised of it.
#[verifier::external_body]
fn glob_walk(root: &str, patterns: &Vec<String>, follow_links: bool) -> (r: Result<
    Vec<WalkEntry>,
    String,
>) {
    let walker = globwalk::GlobWalkerBuilder::from_patterns(root, patterns)
        .follow_links(follow_links)
        .build();
    match walker {
        Ok(w) => Ok(w.map(|entry| match entry {
            Ok(e) => WalkEntry::Found(e.path().to_string_lossy().into_owned(), e.path().is_dir()),
            Err(err) => WalkEntry::Failed(err.to_string()),
        }).collect()),
        Err(err) => Err(err.to_string()),
    }
}

/// What one walk entry contributes, for the walked root `root` and the
/// target directory `dir`: nothing for a directory, the copy action for a
/// file under the root, an error for a file elsewhere or for an unreadable
/// entry.
pub open spec fn spec_entry(root: Seq<char>, dir: Seq<char>, entry: WalkEntrySpec) -> Option<
    Result<ActionSpec, ErrorSpec>,
> {
    match entry {
        WalkEntrySpec::Failed(msg) => Some(Err(cause_error(ErrorKind::HarvestingFailed, msg))),
        WalkEntrySpec::Found(p, is_dir) => {
            if is_dir {
                None
            } else if !has_prefix(p, root) {
                Some(Err(context_error(
                    ErrorKind::HarvestingFailed,
                    "Matched file is not under the source root: "@ + p,
                )))
            } else {
                Some(Ok(ActionSpec::CopyFile {
                    staged: spec_join_path(dir, spec_rel_to(p, root.len() as int)),
                    source: p,
                }))
            }
        },
    }
}

/// The copy actions and the errors the walk entries contribute, each in
/// walk order.
pub open spec fn spec_entry_results(root: Seq<char>, dir: Seq<char>, entries: Seq<WalkEntrySpec>) -> (
    Seq<ActionSpec>,
    Seq<ErrorSpec>,
)
    decreases entries.len(),
{
    if entries.len() == 0 {
        (Seq::<ActionSpec>::empty(), Seq::<ErrorSpec>::empty())
    } else {
        let prev = spec_entry_results(root, dir, entries.drop_last());
        match spec_entry(root, dir, entries.last()) {
            None => prev,
            Some(Ok(a)) => (prev.0.push(a), prev.1),
            Some(Err(e)) => (prev.0, prev.1.push(e)),
        }
    }
}

/// What translating the walk outcome `entries` for `f` yields: the copy
/// actions in walk order; when no file was staged, the error for an empty
/// match unless `f` allows it; otherwise every entry error together.
pub open spec fn spec_files_from_entries(
    f: SourceFilesSpec,
    dir: Seq<char>,
    entries: Seq<WalkEntrySpec>,
) -> Result<Seq<ActionSpec>, Seq<ErrorSpec>> {
    let acts = spec_entry_results(f.path, dir, entries).0;
    let errs = spec_entry_results(f.path, dir, entries).1;
    if acts.len() == 0 && !f.allow_empty {
        Err(seq![context_error(ErrorKind::HarvestingFailed, "No files found under "@ + f.path)])
    } else if errs.len() > 0 {
        Err(errs)
    } else {
        Ok(acts)
    }
}

/// Every action the walk entries contribute is a copy, and every error
/// they contribute is a harvesting failure.
proof fn lemma_entry_results_copies(root: Seq<char>, dir: Seq<char>, entries: Seq<WalkEntrySpec>)
    ensures
        forall|k: int|
            0 <= k < spec_entry_results(root, dir, entries).0.len()
                ==> spec_entry_results(root, dir, entries).0[k] is CopyFile,
        forall|k: int|
            0 <= k < spec_entry_results(root, dir, entries).1.len()
                ==> spec_entry_results(root, dir, entries).1[k].kind
                == ErrorKind::HarvestingFailed,
    decreases entries.len(),
{
    if entries.len() > 0 {
        lemma_entry_results_copies(root, dir, entries.drop_last());
    }
}

/// Specifies a collection of files to be staged into the target directory.
#[derive(Debug, Clone)]
pub struct SourceFiles {
    path: String,
    pattern: Vec<String>,
    follow_links: bool,
    allow_empty: bool,
}

impl View for SourceFiles {
    type V = SourceFilesSpec;

    closed spec fn view(&self) -> SourceFilesSpec {
        SourceFilesSpec {
            path: self.path@,
            pattern: self.pattern.deep_view(),
            follow_links: self.follow_links,
            allow_empty: self.allow_empty,
        }
    }
}

impl SourceFiles {
    /// Specifies a collection of files to be staged into the target
    /// directory.
    ///
    /// - `source`: the root path that the patterns will be matched under to
    ///   identify files to be copied into the target directory.
    pub fn new(source: String) -> (r: Self)
        ensures
            r@ == (SourceFilesSpec {
                path: source@,
                pattern: Seq::<Seq<char>>::empty(),
                follow_links: false,
                allow_empty: false,
            }),
    {
        let r = Self { path: source, pattern: Vec::new(), follow_links: false, allow_empty: false };
        proof {
            assert(r@.pattern =~= Seq::<Seq<char>>::empty());
        }
        r
    }

    /// Adds patterns for the recursive match, in gitignore syntax.
    pub fn push_patterns(self, patterns: Vec<String>) -> (r: Self)
        ensures
            r@ == (SourceFilesSpec { pattern: self@.pattern + patterns.deep_view(), ..self@ }),
    {
        let mut pat = self.pattern;
        let ghost pre = pat.deep_view();
        let mut more = patterns;
        pat.append(&mut more);
        let r = Self {
            path: self.path,
            pattern: pat,
            follow_links: self.follow_links,
            allow_empty: self.allow_empty,
        };
        proof {
            assert(r@.pattern =~= pre + patterns.deep_view());
        }
        r
    }

    /// When true, symbolic links are followed as if they were normal
    /// directories and files.  A broken or looping symbolic link then
    /// yields an error for that entry.
    pub fn follow_links(self, yes: bool) -> (r: Self)
        ensures
            r@ == (SourceFilesSpec { follow_links: yes, ..self@ }),
    {
        Self {
            path: self.path,
            pattern: self.pattern,
            follow_links: yes,
            allow_empty: self.allow_empty,
        }
    }

    /// Toggles whether zero matches for the patterns is acceptable rather
    /// than an error.
    pub fn allow_empty(self, yes: bool) -> (r: Self)
        ensures
            r@ == (SourceFilesSpec { allow_empty: yes, ..self@ }),
    {
        Self {
            path: self.path,
            pattern: self.pattern,
            follow_links: self.follow_links,
            allow_empty: yes,
        }
    }

    /// Translates the walk outcome `entries` for this source, as
    /// [`spec_files_from_entries`] describes it: one copy action per file
    /// entry under the source root, in walk order; an error when nothing
    /// was staged unless empty matches are allowed; otherwise all entry
    /// errors together.
    pub fn build_from_entries(&self, target_dir: &str, entries: Vec<WalkEntry>) -> (r: Result<
        Vec<Action>,
        Errors,
    >)
        ensures
            match spec_files_from_entries(self@, target_dir@, entries.deep_view()) {
                Ok(acts) => r matches Ok(out) && out.deep_view() == acts,
                Err(es0) => r matches Err(es) && es@ == es0,
            },
    {
        let ghost es = entries.deep_view();
        let ghost rootv = self@.path;
        let ghost dirv = target_dir@;
        let root_len = self.path.unicode_len();
        let mut acts: Vec<Action> = Vec::new();
        let mut errors = Errors::new();
        let mut i: usize = 0;
        proof {
            assert(es.take(0) =~= Seq::<WalkEntrySpec>::empty());
            assert(acts.deep_view() =~= Seq::<ActionSpec>::empty());
        }
        while i < entries.len()
            invariant
                i <= entries.len(),
                es == entries.deep_view(),
                rootv == self@.path,
                dirv == target_dir@,
                root_len == rootv.len(),
                acts.deep_view() == spec_entry_results(rootv, dirv, es.take(i as int)).0,
                errors@ == spec_entry_results(rootv, dirv, es.take(i as int)).1,
            decreases entries.len() - i,
        {
            let ghost pre_acts = acts.deep_view();
            let ghost pre_errs = errors@;
            proof {
                assert(es.take(i as int + 1).drop_last() =~= es.take(i as int));
                assert(es.take(i as int + 1).last() == es[i as int]);
            }
            match &entries[i] {
                WalkEntry::Failed(msg) => {
                    errors.push(ErrorKind::HarvestingFailed.error().set_cause(msg.clone()));
                    proof {
                        assert(errors@ =~= pre_errs.push(cause_error(
                            ErrorKind::HarvestingFailed,
                            es.take(i as int + 1).last()->Failed_0,
                        )));
                    }
                },
                WalkEntry::Found(p, is_dir) => {
                    if *is_dir {
                    } else if !check_prefix(p.as_str(), self.path.as_str()) {
                        let msg = String::from_str("Matched file is not under the source root: ")
                            .concat(p.as_str());
                        errors.push(ErrorKind::HarvestingFailed.error().set_context(msg));
                        proof {
                            assert(errors@ =~= pre_errs.push(context_error(
                                ErrorKind::HarvestingFailed,
                                "Matched file is not under the source root: "@ + p@,
                            )));
                        }
                    } else {
                        let rel = rel_to(p.as_str(), root_len);
                        let staged = join_path(target_dir, rel);
                        let ghost stagedv = staged@;
                        acts.push(Action::CopyFile(action::CopyFile::new(staged, p.clone())));
                        proof {
                            assert(stagedv == spec_join_path(dirv, spec_rel_to(p@, rootv.len() as int)));
                            assert(acts.deep_view() =~= pre_acts.push(ActionSpec::CopyFile {
                                staged: stagedv,
                                source: p@,
                            }));
                        }
                    }
                },
            }
            i = i + 1;
        }
        proof {
            assert(es.take(entries@.len() as int) =~= es);
        }
        if acts.len() == 0 && !self.allow_empty {
            let msg = String::from_str("No files found under ").concat(self.path.as_str());
            let err = ErrorKind::HarvestingFailed.error().set_context(msg);
            proof {
                assert(err@ == context_error(
                    ErrorKind::HarvestingFailed,
                    "No files found under "@ + rootv,
                ));
            }
            return Err(Errors::with_error(err));
        }
        errors.ok(acts)
    }

    /// Walks the filesystem under this source's root and translates the
    /// outcome, exactly as [`Self::build_from_entries`] does with what the
    /// walk returned.  A relative source root and an invalid pattern fail
    /// before the walk; what is staged for a valid glob depends on the
    /// filesystem, but every staged action is a copy, and an empty result
    /// is only accepted when empty matches are allowed.
    pub fn build(&self, target_dir: &str) -> (r: Result<Vec<Action>, Errors>)
        ensures
            !is_absolute(self@.path) ==> (r matches Err(es) && es@ == seq![
                context_error(
                    ErrorKind::HarvestingFailed,
                    "SourceFiles path must be absolute: "@ + self@.path,
                ),
            ]),
            r matches Err(es) ==> es@.len() > 0,
            r matches Ok(out) ==> is_absolute(self@.path),
            r matches Ok(out) ==> (out.deep_view().len() == 0 ==> self@.allow_empty),
            r matches Ok(out) ==> (forall|k: int|
                0 <= k < out.deep_view().len() ==> out.deep_view()[k] is CopyFile),
            r matches Err(es) ==> (forall|k: int|
                0 <= k < es@.len() ==> es@[k].kind == ErrorKind::HarvestingFailed),
    {
        if !check_absolute(self.path.as_str()) {
            let msg = String::from_str("SourceFiles path must be absolute: ").concat(
                self.path.as_str(),
            );
            let err = ErrorKind::HarvestingFailed.error().set_context(msg);
            proof {
                assert(err@ == context_error(
                    ErrorKind::HarvestingFailed,
                    "SourceFiles path must be absolute: "@ + self@.path,
                ));
            }
            return Err(Errors::with_error(err));
        }
        match glob_walk(self.path.as_str(), &self.pattern, self.follow_links) {
            Err(msg) => Err(Errors::with_error(ErrorKind::HarvestingFailed.error().set_cause(msg))),
            Ok(entries) => {
                let ghost es = entries.deep_view();
                let r = self.build_from_entries(target_dir, entries);
                proof {
                    lemma_entry_results_copies(self@.path, target_dir@, es);
                }
                r
            },
        }
    }
}

/// Content to stage under one target.
#[derive(Debug, Clone)]
pub enum Source {
    /// The target directory itself.
    Directory(Directory),
    /// One file.
    SourceFile(SourceFile),
    /// A glob-selected set of files.
    SourceFiles(SourceFiles),
    /// One symbolic link.
    Symlink(Symlink),
}

impl View for Source {
    type V = SourceSpec;

    open spec fn view(&self) -> SourceSpec {
        match self {
            Source::Directory(_) => SourceSpec::Directory,
            Source::SourceFile(f) => SourceSpec::File(f@),
            Source::SourceFiles(f) => SourceSpec::Files(f@),
            Source::Symlink(l) => SourceSpec::Link(l@),
        }
    }
}

impl DeepView for Source {
    type V = SourceSpec;

    open spec fn deep_view(&self) -> SourceSpec {
        self.view()
    }
}

/// Whether a source's translation is a pure function of its fields: every
/// source but a glob source, whose translation reads the filesystem.
pub open spec fn source_is_pure(s: SourceSpec) -> bool {
    !(s is Files)
}

/// What translating one source for `dir` yields, exact for every pure
/// source.  For a glob source the outcome depends on the filesystem and
/// this function places nothing: stage-level contracts are exact only for
/// stages without glob sources.
pub open spec fn spec_source_build(s: SourceSpec, dir: Seq<char>) -> Result<
    Seq<ActionSpec>,
    Seq<ErrorSpec>,
> {
    match s {
        SourceSpec::Directory => Ok(spec_dir_build(dir)),
        SourceSpec::File(f) => match spec_file_build(f, dir) {
            Ok(a) => Ok(a),
            Err(e) => Err(seq![e]),
        },
        SourceSpec::Link(l) => match spec_link_build(l, dir) {
            Ok(a) => Ok(a),
            Err(e) => Err(seq![e]),
        },
        SourceSpec::Files(_) => Ok(Seq::<ActionSpec>::empty()),
    }
}

impl Source {
    /// Translates this source for `target_dir`: exactly as
    /// [`spec_source_build`] describes it when the source is pure; for a
    /// glob source, as [`SourceFiles::build`] does.  An empty action list
    /// only ever comes from a glob source that allows empty matches.
    pub fn build(&self, target_dir: &str) -> (r: Result<Vec<Action>, Errors>)
        ensures
            r matches Err(es) ==> es@.len() > 0,
            source_is_pure(self@) ==> match spec_source_build(self@, target_dir@) {
                Ok(acts) => r matches Ok(out) && out.deep_view() == acts,
                Err(es0) => r matches Err(es) && es@ == es0,
            },
            (r matches Ok(out) && out.deep_view().len() == 0) ==> (self@ matches SourceSpec::Files(
                f,
            ) && f.allow_empty),
    {
        match self {
            Source::Directory(d) => d.build(target_dir),
            Source::SourceFile(f) => f.build(target_dir),
            Source::SourceFiles(f) => f.build(target_dir),
            Source::Symlink(l) => l.build(target_dir),
        }
    }
}

/// Whether every one of `sources` is pure.
pub open spec fn sources_pure(sources: Seq<SourceSpec>) -> bool {
    forall|j: int| 0 <= j < sources.len() ==> source_is_pure(sources[j])
}

/// Whether every source of every target of `stage` is pure.
pub open spec fn stage_is_pure(stage: Seq<(Seq<char>, Seq<SourceSpec>)>) -> bool {
    forall|i: int| 0 <= i < stage.len() ==> sources_pure(stage[i].1)
}

/// The actions and the errors the sources of one target contribute, each
/// in source order, for the joined target directory `dir`.
pub open spec fn spec_sources_results(sources: Seq<SourceSpec>, dir: Seq<char>) -> (
    Seq<ActionSpec>,
    Seq<ErrorSpec>,
)
    decreases sources.len(),
{
    if sources.len() == 0 {
        (Seq::<ActionSpec>::empty(), Seq::<ErrorSpec>::empty())
    } else {
        let prev = spec_sources_results(sources.drop_last(), dir);
        match spec_source_build(sources.last(), dir) {
            Ok(a) => (prev.0 + a, prev.1),
            Err(es) => (prev.0, prev.1 + es),
        }
    }
}

/// What one stage entry contributes: the error for an absolute target key,
/// otherwise its sources' results under the joined target directory.
pub open spec fn spec_target_results(
    entry: (Seq<char>, Seq<SourceSpec>),
    target_dir: Seq<char>,
) -> (Seq<ActionSpec>, Seq<ErrorSpec>) {
    if is_absolute(entry.0) {
        (
            Seq::<ActionSpec>::empty(),
            seq![
                context_error(
                    ErrorKind::HarvestingFailed,
                    "target must be relative to the stage root: "@ + entry.0,
                ),
            ],
        )
    } else {
        spec_sources_results(entry.1, spec_join_path(target_dir, entry.0))
    }
}

/// The actions and the errors of a whole stage, each in entry order.
pub open spec fn spec_stage_results(
    stage: Seq<(Seq<char>, Seq<SourceSpec>)>,
    target_dir: Seq<char>,
) -> (Seq<ActionSpec>, Seq<ErrorSpec>)
    decreases stage.len(),
{
    if stage.len() == 0 {
        (Seq::<ActionSpec>::empty(), Seq::<ErrorSpec>::empty())
    } else {
        let prev = spec_stage_results(stage.drop_last(), target_dir);
        let last = spec_target_results(stage.last(), target_dir);
        (prev.0 + last.0, prev.1 + last.1)
    }
}

/// What building a stage without glob sources for `target_dir` yields: the
/// whole ordered action list when no entry contributed an error, every
/// error of every entry together otherwise.
pub open spec fn spec_stage_build(
    stage: Seq<(Seq<char>, Seq<SourceSpec>)>,
    target_dir: Seq<char>,
) -> Result<Seq<ActionSpec>, Seq<ErrorSpec>> {
    let r = spec_stage_results(stage, target_dir);
    if r.1.len() == 0 {
        Ok(r.0)
    } else {
        Err(r.1)
    }
}

/// For each stage target, a list of sources to populate it with.
///
/// A target is a path relative to the stage root; entries are processed in
/// the order given, which the action list preserves.
#[derive(Debug)]
pub struct Stage(Vec<(String, Vec<Source>)>);

impl View for Stage {
    type V = Seq<(Seq<char>, Seq<SourceSpec>)>;

    closed spec fn view(&self) -> Seq<(Seq<char>, Seq<SourceSpec>)> {
        self.0.deep_view()
    }
}

impl Stage {
    /// A stage of the given targets and their sources, in the given order.
    pub fn new(stage: Vec<(String, Vec<Source>)>) -> (r: Self)
        ensures
            r@ == stage.deep_view(),
    {
        Self(stage)
    }

    /// Translates the whole stage for the staging root `target_dir`,
    /// gathering the errors of every target and every source rather than
    /// stopping at the first: for a stage without glob sources, exactly as
    /// [`spec_stage_build`] describes it; in any case, an aggregate error
    /// holds at least one failure, and a successful build means no target
    /// key was absolute.
    pub fn build(&self, target_dir: &str) -> (r: Result<Vec<Action>, Errors>)
        ensures
            stage_is_pure(self@) ==> match spec_stage_build(self@, target_dir@) {
                Ok(acts) => r matches Ok(out) && out.deep_view() == acts,
                Err(es0) => r matches Err(es) && es@ == es0,
            },
            r matches Err(es) ==> es@.len() > 0,
            r matches Ok(out) ==> (forall|k: int|
                0 <= k < self@.len() ==> !is_absolute(self@[k].0)),
    {
        let ghost st = self@;
        let ghost dirv = target_dir@;
        let mut acts: Vec<Action> = Vec::new();
        let mut errors = Errors::new();
        let mut i: usize = 0;
        proof {
            assert(st.take(0) =~= Seq::<(Seq<char>, Seq<SourceSpec>)>::empty());
            assert(acts.deep_view() =~= Seq::<ActionSpec>::empty());
        }
        while i < self.0.len()
            invariant
                i <= self.0.len(),
                st == self@,
                st == self.0.deep_view(),
                dirv == target_dir@,
                stage_is_pure(st.take(i as int)) ==> acts.deep_view() == spec_stage_results(
                    st.take(i as int),
                    dirv,
                ).0 && errors@ == spec_stage_results(st.take(i as int), dirv).1,
                (exists|k: int| 0 <= k < i && is_absolute(st[k].0)) ==> errors@.len() > 0,
            decreases self.0.len() - i,
        {
            let ghost pre_acts = acts.deep_view();
            let ghost pre_errs = errors@;
            proof {
                assert(st.take(i as int + 1).drop_last() =~= st.take(i as int));
                assert(st.take(i as int + 1).last() == st[i as int]);
            }
            let target: &String = &self.0[i].0;
            if check_absolute(target.as_str()) {
                let msg = String::from_str("target must be relative to the stage root: ").concat(
                    target.as_str(),
                );
                errors.push(ErrorKind::HarvestingFailed.error().set_context(msg));
                proof {
                    assert(errors@ =~= pre_errs.push(context_error(
                        ErrorKind::HarvestingFailed,
                        "target must be relative to the stage root: "@ + st[i as int].0,
                    )));
                    if stage_is_pure(st.take(i as int + 1)) {
                        assert(stage_is_pure(st.take(i as int)));
                        assert(spec_stage_results(st.take(i as int + 1), dirv).1 =~= pre_errs.push(
                            context_error(
                                ErrorKind::HarvestingFailed,
                                "target must be relative to the stage root: "@ + st[i as int].0,
                            ),
                        ));
                        assert(spec_stage_results(st.take(i as int + 1), dirv).0 =~= pre_acts);
                    }
                }
            } else {
                let full = join_path(target_dir, target.as_str());
                let ghost fullv = full@;
                let sources: &Vec<Source> = &self.0[i].1;
                let ghost ss = st[i as int].1;
                proof {
                    assert(sources.deep_view() == ss);
                    assert(fullv == spec_join_path(dirv, st[i as int].0));
                }
                let mut t_acts: Vec<Action> = Vec::new();
                let mut t_errs = Errors::new();
                let mut j: usize = 0;
                proof {
                    assert(ss.take(0) =~= Seq::<SourceSpec>::empty());
                    assert(t_acts.deep_view() =~= Seq::<ActionSpec>::empty());
                }
                while j < sources.len()
                    invariant
                        j <= sources.len(),
                        ss == sources.deep_view(),
                        fullv == full@,
                        sources_pure(ss.take(j as int)) ==> t_acts.deep_view()
                            == spec_sources_results(ss.take(j as int), fullv).0 && t_errs@
                            == spec_sources_results(ss.take(j as int), fullv).1,
                    decreases sources.len() - j,
                {
                    let ghost tp_acts = t_acts.deep_view();
                    let ghost tp_errs = t_errs@;
                    proof {
                        assert(ss.take(j as int + 1).drop_last() =~= ss.take(j as int));
                        assert(ss.take(j as int + 1).last() == ss[j as int]);
                    }
                    match sources[j].build(full.as_str()) {
                        Ok(mut out) => {
                            let ghost outv = out.deep_view();
                            t_acts.append(&mut out);
                            proof {
                                assert(t_acts.deep_view() =~= tp_acts + outv);
                            }
                        },
                        Err(es) => {
                            let ghost esv = es@;
                            t_errs.extend(es);
                            proof {
                                assert(t_errs@ =~= tp_errs + esv);
                            }
                        },
                    }
                    j = j + 1;
                    proof {
                        if sources_pure(ss.take(j as int)) {
                            assert(sources_pure(ss.take(j as int - 1))) by {
                                assert(forall|k: int|
                                    0 <= k < ss.take(j as int - 1).len()
                                        ==> ss.take(j as int - 1)[k] == ss.take(j as int)[k]);
                            }
                            assert(source_is_pure(ss[j as int - 1])) by {
                                assert(ss.take(j as int)[j as int - 1] == ss[j as int - 1]);
                            }
                            assert(spec_sources_results(ss.take(j as int - 1), fullv).0
                                == tp_acts);
                            assert(spec_sources_results(ss.take(j as int - 1), fullv).1
                                == tp_errs);
                            assert(ss.take(j as int).drop_last() =~= ss.take(j as int - 1));
                            assert(t_acts.deep_view() == spec_sources_results(
                                ss.take(j as int),
                                fullv,
                            ).0);
                            assert(t_errs@ == spec_sources_results(ss.take(j as int), fullv).1);
                        }
                    }
                }
                proof {
                    assert(ss.take(sources@.len() as int) =~= ss);
                }
                let mut t_acts_owned = t_acts;
                acts.append(&mut t_acts_owned);
                errors.extend(t_errs);
                proof {
                    if stage_is_pure(st.take(i as int + 1)) {
                        assert(stage_is_pure(st.take(i as int)));
                        assert(sources_pure(ss));
                        assert(spec_target_results(st[i as int], dirv)
                            == spec_sources_results(ss, fullv));
                        assert(acts.deep_view() =~= spec_stage_results(
                            st.take(i as int + 1),
                            dirv,
                        ).0);
                        assert(errors@ =~= spec_stage_results(st.take(i as int + 1), dirv).1);
                    }
                }
            }
            i = i + 1;
        }
        proof {
            assert(st.take(self.0@.len() as int) =~= st);
        }
        errors.ok(acts)
    }
}

/// The errors one source's build contributes, empty when it succeeds.
pub open spec fn spec_source_errors(s: SourceSpec, dir: Seq<char>) -> Seq<ErrorSpec> {
    match spec_source_build(s, dir) {
        Ok(_) => Seq::<ErrorSpec>::empty(),
        Err(es) => es,
    }
}

/// An element of either part of a concatenation is an element of the whole.
pub(crate) proof fn lemma_concat_contains(a: Seq<ErrorSpec>, b: Seq<ErrorSpec>, e: ErrorSpec)
    requires
        a.contains(e) || b.contains(e),
    ensures
        (a + b).contains(e),
{
    if a.contains(e) {
        let i = choose|i: int| 0 <= i < a.len() && a[i] == e;
        assert((a + b)[i] == e);
    } else {
        let i = choose|i: int| 0 <= i < b.len() && b[i] == e;
        assert((a + b)[a.len() + i] == e);
    }
}

/// A failing source's errors all stand in its target's error list.
proof fn lemma_sources_report_failure(sources: Seq<SourceSpec>, dir: Seq<char>, j: int)
    requires
        0 <= j < sources.len(),
        spec_source_build(sources[j], dir) is Err,
    ensures
        spec_sources_results(sources, dir).1.len() > 0,
        forall|e: ErrorSpec|
            spec_source_errors(sources[j], dir).contains(e) ==> #[trigger] spec_sources_results(
                sources,
                dir,
            ).1.contains(e),
    decreases sources.len(),
{
    let prev = spec_sources_results(sources.drop_last(), dir);
    if j == sources.len() - 1 {
        assert(sources.last() == sources[j]);
        assert forall|e: ErrorSpec|
            spec_source_errors(sources[j], dir).contains(e) implies #[trigger] spec_sources_results(
            sources,
            dir,
        ).1.contains(e) by {
            lemma_concat_contains(prev.1, spec_source_errors(sources[j], dir), e);
        }
        let es = spec_source_errors(sources[j], dir);
        assert(es.len() > 0) by {
            assert(spec_source_build(sources[j], dir) is Err);
        }
        assert(spec_sources_results(sources, dir).1.len() == prev.1.len() + es.len());
    } else {
        assert(sources.drop_last()[j] == sources[j]);
        lemma_sources_report_failure(sources.drop_last(), dir, j);
        assert forall|e: ErrorSpec|
            spec_source_errors(sources[j], dir).contains(e) implies #[trigger] spec_sources_results(
            sources,
            dir,
        ).1.contains(e) by {
            match spec_source_build(sources.last(), dir) {
                Ok(_) => {
                    assert(spec_sources_results(sources, dir).1 == prev.1);
                },
                Err(es2) => {
                    lemma_concat_contains(prev.1, es2, e);
                },
            }
        }
        match spec_source_build(sources.last(), dir) {
            Ok(_) => {},
            Err(es2) => {
                assert(spec_sources_results(sources, dir).1.len() == prev.1.len() + es2.len());
            },
        }
    }
}

/// A failing source's errors all stand in the whole stage's error list.
proof fn lemma_stage_reports_failure(
    stage: Seq<(Seq<char>, Seq<SourceSpec>)>,
    dir: Seq<char>,
    i: int,
    j: int,
)
    requires
        0 <= i < stage.len(),
        !is_absolute(stage[i].0),
        0 <= j < stage[i].1.len(),
        spec_source_build(stage[i].1[j], spec_join_path(dir, stage[i].0)) is Err,
    ensures
        spec_stage_results(stage, dir).1.len() > 0,
        forall|e: ErrorSpec|
            spec_source_errors(stage[i].1[j], spec_join_path(dir, stage[i].0)).contains(e)
                ==> #[trigger] spec_stage_results(stage, dir).1.contains(e),
    decreases stage.len(),
{
    let prev = spec_stage_results(stage.drop_last(), dir);
    let last = spec_target_results(stage.last(), dir);
    let tdir = spec_join_path(dir, stage[i].0);
    if i == stage.len() - 1 {
        assert(stage.last() == stage[i]);
        lemma_sources_report_failure(stage[i].1, tdir, j);
        assert(last.1 == spec_sources_results(stage[i].1, tdir).1);
        assert forall|e: ErrorSpec|
            spec_source_errors(stage[i].1[j], tdir).contains(e) implies #[trigger] spec_stage_results(
            stage,
            dir,
        ).1.contains(e) by {
            lemma_concat_contains(prev.1, last.1, e);
        }
        assert(spec_stage_results(stage, dir).1.len() == prev.1.len() + last.1.len());
    } else {
        assert(stage.drop_last()[i] == stage[i]);
        lemma_stage_reports_failure(stage.drop_last(), dir, i, j);
        assert forall|e: ErrorSpec|
            spec_source_errors(stage[i].1[j], tdir).contains(e) implies #[trigger] spec_stage_results(
            stage,
            dir,
        ).1.contains(e) by {
            lemma_concat_contains(prev.1, last.1, e);
        }
        assert(spec_stage_results(stage, dir).1.len() >= prev.1.len());
    }
}

/// Translation aggregates instead of stopping at the first problem: when
/// two sources, each invalid on its own, stand under two different targets
/// of one stage, building the stage fails with an aggregate that holds
/// every error of both sources, not just the first.
pub proof fn lemma_build_reports_both_failures(
    stage: Seq<(Seq<char>, Seq<SourceSpec>)>,
    dir: Seq<char>,
    i1: int,
    j1: int,
    i2: int,
    j2: int,
)
    requires
        0 <= i1 < stage.len(),
        0 <= i2 < stage.len(),
        i1 != i2,
        !is_absolute(stage[i1].0),
        !is_absolute(stage[i2].0),
        0 <= j1 < stage[i1].1.len(),
        0 <= j2 < stage[i2].1.len(),
        spec_source_build(stage[i1].1[j1], spec_join_path(dir, stage[i1].0)) is Err,
        spec_source_build(stage[i2].1[j2], spec_join_path(dir, stage[i2].0)) is Err,
    ensures
        spec_stage_build(stage, dir) is Err,
        forall|e: ErrorSpec|
            spec_source_errors(stage[i1].1[j1], spec_join_path(dir, stage[i1].0)).contains(e)
                ==> #[trigger] spec_stage_results(stage, dir).1.contains(e),
        forall|e: ErrorSpec|
            spec_source_errors(stage[i2].1[j2], spec_join_path(dir, stage[i2].0)).contains(e)
                ==> #[trigger] spec_stage_results(stage, dir).1.contains(e),
{
    lemma_stage_reports_failure(stage, dir, i1, j1);
    lemma_stage_reports_failure(stage, dir, i2, j2);
}

} // verus!
