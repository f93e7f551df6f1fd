//! Concrete filesystem operations to stage files.
//!
//! An [`Action`] is the concrete, executable form a source descriptor is
//! translated into.  Each action carries full paths and exposes a stable
//! one-line preview; performing the actions (and any other filesystem
//! access) is the embedding program's business, which is why previewing is
//! all that happens here.

use vstd::prelude::*;

verus! {

/// Mathematical model of an [`Action`].
pub enum ActionSpec {
    /// Create the directory `staged`, with any missing ancestors.
    CreateDirectory { staged: Seq<char> },
    /// Copy the file at `source` to `staged`.
    CopyFile { staged: Seq<char>, source: Seq<char> },
    /// Create at `staged` a symbolic link pointing at `target`.
    Symlink { staged: Seq<char>, target: Seq<char> },
}

/// The stable one-line preview of an action.
pub open spec fn spec_preview(a: ActionSpec) -> Seq<char> {
    match a {
        ActionSpec::CreateDirectory { staged } => "mkdir "@ + staged,
        ActionSpec::CopyFile { staged, source } => "cp "@ + source + " "@ + staged,
        ActionSpec::Symlink { staged, target } => "ln -s "@ + target + " "@ + staged,
    }
}

/// Specifies a staged directory to be created.
#[derive(Debug, Clone)]
pub struct CreateDirectory {
    /// Full path of the future directory.
    pub staged: String,
}

impl View for CreateDirectory {
    type V = ActionSpec;

    open spec fn view(&self) -> ActionSpec {
        ActionSpec::CreateDirectory { staged: self.staged@ }
    }
}

impl CreateDirectory {
    /// Specifies a staged directory to be created.
    ///
    /// - `staged`: full path of the future directory.
    pub fn new(staged: String) -> (r: Self)
        ensures
            r@ == (ActionSpec::CreateDirectory { staged: staged@ }),
    {
        Self { staged }
    }

    /// The one-line preview of this action.
    pub fn preview(&self) -> (r: String)
        ensures
            r@ == spec_preview(self@),
    {
        String::from_str("mkdir ").concat(self.staged.as_str())
    }
}

/// Specifies a file to be copied into the target directory.
#[derive(Debug, Clone)]
pub struct CopyFile {
    /// Full path of the future file.
    pub staged: String,
    /// Full path of the file being written to `staged`.
    pub source: String,
}

impl View for CopyFile {
    type V = ActionSpec;

    open spec fn view(&self) -> ActionSpec {
        ActionSpec::CopyFile { staged: self.staged@, source: self.source@ }
    }
}

impl CopyFile {
    /// Specifies a file to be copied into the target directory.
    ///
    /// - `staged`: full path of the future file.
    /// - `source`: full path of the file being written to `staged`.
    pub fn new(staged: String, source: String) -> (r: Self)
        ensures
            r@ == (ActionSpec::CopyFile { staged: staged@, source: source@ }),
    {
        Self { staged, source }
    }

    /// The one-line preview of this action.
    pub fn preview(&self) -> (r: String)
        ensures
            r@ == spec_preview(self@),
    {
        let r = String::from_str("cp ").concat(self.source.as_str()).concat(" ").concat(
            self.staged.as_str(),
        );
        proof {
            assert(r@ =~= spec_preview(self@));
        }
        r
    }
}

/// Specifies a symbolic link to be placed in the target directory.
#[derive(Debug, Clone)]
pub struct Symlink {
    /// Full path of the future link.
    pub staged: String,
    /// The path the link will point at.
    pub target: String,
}

impl View for Symlink {
    type V = ActionSpec;

    open spec fn view(&self) -> ActionSpec {
        ActionSpec::Symlink { staged: self.staged@, target: self.target@ }
    }
}

impl Symlink {
    /// Specifies a symbolic link to be placed in the target directory.
    ///
    /// - `staged`: full path of the future link.
    /// - `target`: the path the link will point at.
    pub fn new(staged: String, target: String) -> (r: Self)
        ensures
            r@ == (ActionSpec::Symlink { staged: staged@, target: target@ }),
    {
        Self { staged, target }
    }

    /// The one-line preview of this action.
    pub fn preview(&self) -> (r: String)
        ensures
            r@ == spec_preview(self@),
    {
        let r = String::from_str("ln -s ").concat(self.target.as_str()).concat(" ").concat(
            self.staged.as_str(),
        );
        proof {
            assert(r@ =~= spec_preview(self@));
        }
        r
    }
}

/// One concrete operation for setting up the staged directory tree.
#[derive(Debug, Clone)]
pub enum Action {
    /// Create a directory.
    CreateDirectory(CreateDirectory),
    /// Copy a file.
    CopyFile(CopyFile),
    /// Place a symbolic link.
    Symlink(Symlink),
}

impl View for Action {
    type V = ActionSpec;

    open spec fn view(&self) -> ActionSpec {
        match self {
            Action::CreateDirectory(a) => a@,
            Action::CopyFile(a) => a@,
            Action::Symlink(a) => a@,
        }
    }
}

impl DeepView for Action {
    type V = ActionSpec;

    open spec fn deep_view(&self) -> ActionSpec {
        self.view()
    }
}

impl Action {
    /// The one-line preview of this action.
    pub fn preview(&self) -> (r: String)
        ensures
            r@ == spec_preview(self@),
    {
        match self {
            Action::CreateDirectory(a) => a.preview(),
            Action::CopyFile(a) => a.preview(),
            Action::Symlink(a) => a.preview(),
        }
    }
}

/// The previews of `actions`, in order.
pub open spec fn spec_previews(actions: Seq<ActionSpec>) -> Seq<Seq<char>> {
    actions.map_values(|a: ActionSpec| spec_preview(a))
}

/// One preview line per action, in action order: what a dry run prints and
/// what a real run logs, so both show the very same lines for the same
/// action list.
pub fn previews(actions: &Vec<Action>) -> (r: Vec<String>)
    ensures
        r.deep_view() == spec_previews(actions.deep_view()),
{
    let mut out: Vec<String> = Vec::new();
    let mut i: usize = 0;
    while i < actions.len()
        invariant
            i <= actions.len(),
            out.deep_view() =~= spec_previews(actions.deep_view().take(i as int)),
        decreases actions.len() - i,
    {
        let ghost pre = out.deep_view();
        let line = actions[i].preview();
        out.push(line);
        i = i + 1;
        proof {
            assert(out.deep_view() =~= pre.push(line@));
            assert(spec_previews(actions.deep_view().take(i as int)) =~= pre.push(line@));
        }
    }
    proof {
        assert(actions.deep_view().take(actions@.len() as int) =~= actions.deep_view());
    }
    out
}

} // verus!
