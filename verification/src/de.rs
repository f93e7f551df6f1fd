//! Composable declarative staging model.
//!
//! The types here mirror those of [`crate::builder`], with every path-like
//! field a [`Template`] rather than a plain string.  Formatting renders
//! every field against a [`TemplateEngine`] and yields the builder form.
//! Stage-level formatting never stops at the first problem: the errors of
//! every invalid target and every invalid source of one run are returned
//! together.

use vstd::prelude::*;

use crate::builder;
use crate::builder::{lemma_concat_contains, SourceFileSpec, SourceFilesSpec, SourceSpec, SymlinkSpec};
use crate::error::{ErrorSpec, Errors, StagingError};
use crate::paths::{abs_to_rel_error, abs_to_rel_spec};
use crate::template::{
    rendered, render_error, spec_render_all, OneOrMany, Template, TemplateEngine,
};

pub use crate::paths::abs_to_rel;

verus! {

/// Mathematical model of a [`SourceFile`]: its template texts.
pub struct SourceFileView {
    /// The source path template.
    pub path: Seq<char>,
    /// The rename template, when given.
    pub rename: Option<Seq<char>>,
    /// The symlink alias templates, when given.
    pub symlink: Option<Seq<Seq<char>>>,
}

/// Mathematical model of a [`SourceFiles`]: its template texts and flags.
pub struct SourceFilesView {
    /// The source root template.
    pub path: Seq<char>,
    /// The pattern templates.
    pub pattern: Seq<Seq<char>>,
    /// Whether the walk follows symbolic links.
    pub follow_links: bool,
    /// Whether zero matched files is acceptable.
    pub allow_empty: bool,
}

/// Mathematical model of a [`Symlink`]: its template texts.
pub struct SymlinkView {
    /// The link target template.
    pub target: Seq<char>,
    /// The rename template, when given.
    pub rename: Option<Seq<char>>,
}

/// Mathematical model of a [`Source`].
pub enum SourceView {
    /// The target directory itself.
    Directory,
    /// One file.
    File(SourceFileView),
    /// A glob-selected set of files.
    Files(SourceFilesView),
    /// One symbolic link.
    Link(SymlinkView),
}

/// Specifies a file to be staged into the target directory.
#[derive(Debug, Clone, PartialEq, Eq)]
pub struct SourceFile {
    /// The full path of the file to be copied into the target directory.
    pub path: Template,
    /// The name the staged copy should be given.  Default is the filename
    /// of the source file.
    pub rename: Option<Template>,
    /// Symbolic links to the staged copy, in the same target directory.
    pub symlink: Option<OneOrMany<Template>>,
}

impl View for SourceFile {
    type V = SourceFileView;

    open spec fn view(&self) -> SourceFileView {
        SourceFileView {
            path: self.path@,
            rename: match self.rename {
                Some(ref t) => Some(t@),
                None => None,
            },
            symlink: match self.symlink {
                Some(ref om) => Some(om@),
                None => None,
            },
        }
    }
}

/// Specifies a collection of files to be staged into the target directory.
#[derive(Debug, Clone, PartialEq, Eq)]
pub struct SourceFiles {
    /// The root path that the patterns will be matched under to identify
    /// files to be copied into the target directory.
    pub path: Template,
    /// The patterns for the recursive match, in gitignore syntax.
    pub pattern: OneOrMany<Template>,
    /// When true, symbolic links are followed as if they were normal
    /// directories and files.  A broken or looping symbolic link then
    /// yields an error for that entry.
    pub follow_links: bool,
    /// Toggles whether zero matches for the patterns is acceptable rather
    /// than an error.
    pub allow_empty: bool,
}

impl View for SourceFiles {
    type V = SourceFilesView;

    open spec fn view(&self) -> SourceFilesView {
        SourceFilesView {
            path: self.path@,
            pattern: self.pattern@,
            follow_links: self.follow_links,
            allow_empty: self.allow_empty,
        }
    }
}

/// Specifies a symbolic link to be staged into the target directory.
#[derive(Debug, Clone, PartialEq, Eq)]
pub struct Symlink {
    /// The literal path for the staged link to point at.
    pub target: Template,
    /// The name the staged link should be given.  Default is the filename
    /// of the link target.
    pub rename: Option<Template>,
}

impl View for Symlink {
    type V = SymlinkView;

    open spec fn view(&self) -> SymlinkView {
        SymlinkView {
            target: self.target@,
            rename: match self.rename {
                Some(ref t) => Some(t@),
                None => None,
            },
        }
    }
}

/// Specifies that the target directory itself is to be created.
#[derive(Debug, Clone, PartialEq, Eq)]
pub struct Directory {}

/// Content to stage under one target.
#[derive(Debug, Clone, PartialEq, Eq)]
pub enum Source {
    /// The target directory itself.
    Directory(Directory),
    /// One file.
    SourceFile(SourceFile),
    /// A glob-selected set of files.
    SourceFiles(SourceFiles),
    /// One symbolic link.
    Symlink(Symlink),
}

impl View for Source {
    type V = SourceView;

    open spec fn view(&self) -> SourceView {
        match self {
            Source::Directory(_) => SourceView::Directory,
            Source::SourceFile(f) => SourceView::File(f@),
            Source::SourceFiles(f) => SourceView::Files(f@),
            Source::Symlink(l) => SourceView::Link(l@),
        }
    }
}

impl DeepView for Source {
    type V = SourceView;

    open spec fn deep_view(&self) -> SourceView {
        self.view()
    }
}

/// What rendering one file source yields: its builder form, or the first
/// render error, the fields rendered in the order path, symlinks, rename.
pub open spec fn spec_format_file(ctx: Map<Seq<char>, Seq<char>>, f: SourceFileView) -> Result<
    SourceFileSpec,
    ErrorSpec,
> {
    match rendered(ctx, f.path) {
        None => Err(render_error(f.path)),
        Some(path) => {
            let links_r = match f.symlink {
                None => Ok(Seq::<Seq<char>>::empty()),
                Some(ts) => spec_render_all(ctx, ts),
            };
            match links_r {
                Err(e) => Err(e),
                Ok(links) => match f.rename {
                    None => Ok(SourceFileSpec { path, rename: None, symlink: links }),
                    Some(t) => match rendered(ctx, t) {
                        None => Err(render_error(t)),
                        Some(n) => Ok(SourceFileSpec { path, rename: Some(n), symlink: links }),
                    },
                },
            }
        },
    }
}

/// What rendering one glob source yields: its builder form, or the first
/// render error, the fields rendered in the order path, patterns.
pub open spec fn spec_format_files(ctx: Map<Seq<char>, Seq<char>>, f: SourceFilesView) -> Result<
    SourceFilesSpec,
    ErrorSpec,
> {
    match rendered(ctx, f.path) {
        None => Err(render_error(f.path)),
        Some(path) => match spec_render_all(ctx, f.pattern) {
            Err(e) => Err(e),
            Ok(pats) => Ok(SourceFilesSpec {
                path,
                pattern: pats,
                follow_links: f.follow_links,
                allow_empty: f.allow_empty,
            }),
        },
    }
}

/// What rendering one symlink source yields: its builder form, or the
/// first render error, the fields rendered in the order target, rename.
pub open spec fn spec_format_link(ctx: Map<Seq<char>, Seq<char>>, l: SymlinkView) -> Result<
    SymlinkSpec,
    ErrorSpec,
> {
    match rendered(ctx, l.target) {
        None => Err(render_error(l.target)),
        Some(target) => match l.rename {
            None => Ok(SymlinkSpec { target, rename: None }),
            Some(t) => match rendered(ctx, t) {
                None => Err(render_error(t)),
                Some(n) => Ok(SymlinkSpec { target, rename: Some(n) }),
            },
        },
    }
}

/// What rendering one source yields: its builder form, or its first render
/// error.
pub open spec fn spec_format_source(ctx: Map<Seq<char>, Seq<char>>, s: SourceView) -> Result<
    SourceSpec,
    ErrorSpec,
> {
    match s {
        SourceView::Directory => Ok(SourceSpec::Directory),
        SourceView::File(f) => match spec_format_file(ctx, f) {
            Ok(b) => Ok(SourceSpec::File(b)),
            Err(e) => Err(e),
        },
        SourceView::Files(f) => match spec_format_files(ctx, f) {
            Ok(b) => Ok(SourceSpec::Files(b)),
            Err(e) => Err(e),
        },
        SourceView::Link(l) => match spec_format_link(ctx, l) {
            Ok(b) => Ok(SourceSpec::Link(b)),
            Err(e) => Err(e),
        },
    }
}

impl SourceFile {
    /// Renders every template field, as [`spec_format_file`] describes it.
    pub fn format(&self, engine: &TemplateEngine) -> (r: Result<builder::SourceFile, StagingError>)
        ensures
            match spec_format_file(engine@, self@) {
                Ok(b) => r matches Ok(out) && out@ == b,
                Err(e) => r matches Err(err) && err@ == e,
            },
    {
        let path = match self.path.format(engine) {
            Ok(p) => p,
            Err(e) => {
                return Err(e);
            },
        };
        let links: Vec<String> = match &self.symlink {
            None => Vec::new(),
            Some(om) => match om.format(engine) {
                Ok(ls) => ls,
                Err(e) => {
                    return Err(e);
                },
            },
        };
        let ghost linksv = links.deep_view();
        proof {
            if self@.symlink is None {
                assert(linksv =~= Seq::<Seq<char>>::empty());
            }
        }
        let rename: Option<String> = match &self.rename {
            None => None,
            Some(t) => match t.format(engine) {
                Ok(n) => Some(n),
                Err(e) => {
                    return Err(e);
                },
            },
        };
        let out = builder::SourceFile::new(path).rename(rename).push_symlinks(links);
        proof {
            assert(out@.symlink =~= linksv);
        }
        Ok(out)
    }
}

impl SourceFiles {
    /// Renders every template field, as [`spec_format_files`] describes it.
    pub fn format(&self, engine: &TemplateEngine) -> (r: Result<builder::SourceFiles, StagingError>)
        ensures
            match spec_format_files(engine@, self@) {
                Ok(b) => r matches Ok(out) && out@ == b,
                Err(e) => r matches Err(err) && err@ == e,
            },
    {
        let path = match self.path.format(engine) {
            Ok(p) => p,
            Err(e) => {
                return Err(e);
            },
        };
        let pats = match self.pattern.format(engine) {
            Ok(ps) => ps,
            Err(e) => {
                return Err(e);
            },
        };
        let ghost patsv = pats.deep_view();
        let out = builder::SourceFiles::new(path).push_patterns(pats).follow_links(
            self.follow_links,
        ).allow_empty(self.allow_empty);
        proof {
            assert(out@.pattern =~= patsv);
        }
        Ok(out)
    }
}

impl Symlink {
    /// Renders every template field, as [`spec_format_link`] describes it.
    pub fn format(&self, engine: &TemplateEngine) -> (r: Result<builder::Symlink, StagingError>)
        ensures
            match spec_format_link(engine@, self@) {
                Ok(b) => r matches Ok(out) && out@ == b,
                Err(e) => r matches Err(err) && err@ == e,
            },
    {
        let target = match self.target.format(engine) {
            Ok(t) => t,
            Err(e) => {
                return Err(e);
            },
        };
        let rename: Option<String> = match &self.rename {
            None => None,
            Some(t) => match t.format(engine) {
                Ok(n) => Some(n),
                Err(e) => {
                    return Err(e);
                },
            },
        };
        Ok(builder::Symlink::new(target).rename(rename))
    }
}

impl Source {
    /// Renders this source's template fields, as [`spec_format_source`]
    /// describes it.
    pub fn format(&self, engine: &TemplateEngine) -> (r: Result<builder::Source, StagingError>)
        ensures
            match spec_format_source(engine@, self@) {
                Ok(b) => r matches Ok(out) && out@ == b,
                Err(e) => r matches Err(err) && err@ == e,
            },
    {
        match self {
            Source::Directory(_) => Ok(builder::Source::Directory(builder::Directory::new())),
            Source::SourceFile(f) => match f.format(engine) {
                Ok(b) => Ok(builder::Source::SourceFile(b)),
                Err(e) => Err(e),
            },
            Source::SourceFiles(f) => match f.format(engine) {
                Ok(b) => Ok(builder::Source::SourceFiles(b)),
                Err(e) => Err(e),
            },
            Source::Symlink(l) => match l.format(engine) {
                Ok(b) => Ok(builder::Source::Symlink(b)),
                Err(e) => Err(e),
            },
        }
    }
}

/// What formatting the sources of one target yields: every source's
/// builder form in order when all render, otherwise the render errors of
/// every failing source of this target, in order.
pub open spec fn spec_format_sources(ctx: Map<Seq<char>, Seq<char>>, sources: Seq<SourceView>) -> Result<
    Seq<SourceSpec>,
    Seq<ErrorSpec>,
>
    decreases sources.len(),
{
    if sources.len() == 0 {
        Ok(Seq::<SourceSpec>::empty())
    } else {
        let prev = spec_format_sources(ctx, sources.drop_last());
        match spec_format_source(ctx, sources.last()) {
            Ok(b) => match prev {
                Ok(bs) => Ok(bs.push(b)),
                Err(es) => Err(es),
            },
            Err(e) => match prev {
                Ok(_) => Err(seq![e]),
                Err(es) => Err(es.push(e)),
            },
        }
    }
}

/// What formatting one stage entry yields: the normalized target key with
/// its sources' builder forms, or this entry's errors: one for a target
/// key that does not render or does not normalize, else those of its
/// failing sources.
pub open spec fn spec_format_target(
    ctx: Map<Seq<char>, Seq<char>>,
    target: Seq<char>,
    sources: Seq<SourceView>,
) -> Result<(Seq<char>, Seq<SourceSpec>), Seq<ErrorSpec>> {
    match rendered(ctx, target) {
        None => Err(seq![render_error(target)]),
        Some(t) => match abs_to_rel_spec(t) {
            None => Err(seq![abs_to_rel_error(t)]),
            Some(rel) => match spec_format_sources(ctx, sources) {
                Ok(bs) => Ok((rel, bs)),
                Err(es) => Err(es),
            },
        },
    }
}

/// What formatting a whole stage yields: every entry's pair in order when
/// everything renders and normalizes, otherwise the errors of every
/// failing entry together, in entry order.
pub open spec fn spec_format_stage(
    ctx: Map<Seq<char>, Seq<char>>,
    stage: Seq<(Seq<char>, Seq<SourceView>)>,
) -> Result<Seq<(Seq<char>, Seq<SourceSpec>)>, Seq<ErrorSpec>>
    decreases stage.len(),
{
    if stage.len() == 0 {
        Ok(Seq::<(Seq<char>, Seq<SourceSpec>)>::empty())
    } else {
        let prev = spec_format_stage(ctx, stage.drop_last());
        match spec_format_target(ctx, stage.last().0, stage.last().1) {
            Ok(pair) => match prev {
                Ok(ps) => Ok(ps.push(pair)),
                Err(es) => Err(es),
            },
            Err(tes) => match prev {
                Ok(_) => Err(tes),
                Err(es) => Err(es + tes),
            },
        }
    }
}

/// For each stage target, a list of sources to populate it with.
///
/// The target is an absolute logical path, treating the stage as the root,
/// and supports template formatting.  Entries are formatted and built in
/// the order given.
#[derive(Debug, Clone, PartialEq, Eq)]
pub struct MapStage(Vec<(Template, Vec<Source>)>);

impl View for MapStage {
    type V = Seq<(Seq<char>, Seq<SourceView>)>;

    closed spec fn view(&self) -> Seq<(Seq<char>, Seq<SourceView>)> {
        self.0.deep_view()
    }
}

impl MapStage {
    /// A stage description of the given targets and their sources, in the
    /// given order.
    pub fn new(stage: Vec<(Template, Vec<Source>)>) -> (r: Self)
        ensures
            r@ == stage.deep_view(),
    {
        Self(stage)
    }

    /// Renders and normalizes every target key and renders every source,
    /// exactly as [`spec_format_stage`] describes it.  Formatting never
    /// stops at the first problem: every failing target and every failing
    /// source of one run is reported in the one aggregate, in order.
    pub fn format(&self, engine: &TemplateEngine) -> (r: Result<builder::Stage, Errors>)
        ensures
            match spec_format_stage(engine@, self@) {
                Ok(pairs) => r matches Ok(stage) && stage@ == pairs,
                Err(es0) => r matches Err(es) && es@ == es0,
            },
    {
        let ghost st = self@;
        let ghost ctx = engine@;
        let mut pairs: Vec<(String, Vec<builder::Source>)> = Vec::new();
        let mut errors = Errors::new();
        let mut i: usize = 0;
        proof {
            assert(st.take(0) =~= Seq::<(Seq<char>, Seq<SourceView>)>::empty());
            assert(pairs.deep_view() =~= Seq::<(Seq<char>, Seq<SourceSpec>)>::empty());
        }
        while i < self.0.len()
            invariant
                i <= self.0.len(),
                st == self@,
                st == self.0.deep_view(),
                ctx == engine@,
                match spec_format_stage(ctx, st.take(i as int)) {
                    Ok(ps) => errors@.len() == 0 && pairs.deep_view() == ps,
                    Err(es) => errors@ == es,
                },
            decreases self.0.len() - i,
        {
            let ghost pre_pairs = pairs.deep_view();
            let ghost pre_errs = errors@;
            proof {
                assert(st.take(i as int + 1).drop_last() =~= st.take(i as int));
                assert(st.take(i as int + 1).last() == st[i as int]);
            }
            let entry = &self.0[i];
            let ghost tkey = st[i as int].0;
            let ghost ssv = st[i as int].1;
            proof {
                assert(tkey == entry.0@);
                assert(ssv == entry.1.deep_view());
            }
            match entry.0.format(engine) {
                Err(e) => {
                    let ghost ev = e@;
                    errors.push(e);
                    proof {
                        assert(rendered(ctx, tkey) is None);
                        assert(ev == render_error(tkey));
                        assert(spec_format_target(ctx, tkey, ssv) == Err::<
                            (Seq<char>, Seq<SourceSpec>),
                            Seq<ErrorSpec>,
                        >(seq![render_error(tkey)]));
                        if spec_format_stage(ctx, st.take(i as int)) is Ok {
                            assert(pre_errs.len() == 0);
                            assert(errors@ =~= seq![render_error(tkey)]);
                        } else {
                            assert(errors@ =~= pre_errs + seq![render_error(tkey)]);
                        }
                    }
                },
                Ok(t) => {
                    let ghost tv = t@;
                    proof {
                        assert(rendered(ctx, tkey) == Some(tv));
                    }
                    match abs_to_rel(t.as_str()) {
                        Err(e) => {
                            let ghost ev = e@;
                            errors.push(e);
                            proof {
                                assert(abs_to_rel_spec(tv) is None);
                                assert(ev == abs_to_rel_error(tv));
                                assert(spec_format_target(ctx, tkey, ssv) == Err::<
                                    (Seq<char>, Seq<SourceSpec>),
                                    Seq<ErrorSpec>,
                                >(seq![abs_to_rel_error(tv)]));
                                if spec_format_stage(ctx, st.take(i as int)) is Ok {
                                    assert(pre_errs.len() == 0);
                                    assert(errors@ =~= seq![abs_to_rel_error(tv)]);
                                } else {
                                    assert(errors@ =~= pre_errs + seq![abs_to_rel_error(tv)]);
                                }
                            }
                        },
                        Ok(rel) => {
                            let sources: &Vec<Source> = &entry.1;
                            proof {
                                assert(sources.deep_view() == ssv);
                            }
                            let mut bs: Vec<builder::Source> = Vec::new();
                            let mut t_errs = Errors::new();
                            let mut j: usize = 0;
                            proof {
                                assert(ssv.take(0) =~= Seq::<SourceView>::empty());
                                assert(bs.deep_view() =~= Seq::<SourceSpec>::empty());
                            }
                            while j < sources.len()
                                invariant
                                    j <= sources.len(),
                                    ssv == sources.deep_view(),
                                    ctx == engine@,
                                    match spec_format_sources(ctx, ssv.take(j as int)) {
                                        Ok(fs) => t_errs@.len() == 0 && bs.deep_view() == fs,
                                        Err(es) => t_errs@ == es,
                                    },
                                decreases sources.len() - j,
                            {
                                let ghost pre_bs = bs.deep_view();
                                let ghost pre_tes = t_errs@;
                                proof {
                                    assert(ssv.take(j as int + 1).drop_last() =~= ssv.take(
                                        j as int,
                                    ));
                                    assert(ssv.take(j as int + 1).last() == ssv[j as int]);
                                }
                                match sources[j].format(engine) {
                                    Ok(b) => {
                                        let ghost bv = b@;
                                        bs.push(b);
                                        proof {
                                            assert(bs.deep_view() =~= pre_bs.push(bv));
                                        }
                                    },
                                    Err(e) => {
                                        let ghost ev = e@;
                                        t_errs.push(e);
                                        proof {
                                            assert(t_errs@ =~= pre_tes.push(ev));
                                            assert(seq![ev] =~= Seq::<ErrorSpec>::empty().push(
                                                ev,
                                            ));
                                        }
                                    },
                                }
                                j = j + 1;
                            }
                            proof {
                                assert(ssv.take(sources@.len() as int) =~= ssv);
                                lemma_format_sources_err_nonempty(ctx, ssv);
                            }
                            if t_errs.is_empty() {
                                let ghost relv = rel@;
                                let ghost bsv = bs.deep_view();
                                pairs.push((rel, bs));
                                proof {
                                    assert(abs_to_rel_spec(tv) == Some(relv));
                                    assert(spec_format_sources(ctx, ssv) == Ok::<
                                        Seq<SourceSpec>,
                                        Seq<ErrorSpec>,
                                    >(bsv));
                                    assert(spec_format_target(ctx, tkey, ssv) == Ok::<
                                        (Seq<char>, Seq<SourceSpec>),
                                        Seq<ErrorSpec>,
                                    >((relv, bsv)));
                                    assert(pairs.deep_view() =~= pre_pairs.push((relv, bsv)));
                                }
                            } else {
                                let ghost tesv = t_errs@;
                                errors.extend(t_errs);
                                proof {
                                    assert(spec_format_sources(ctx, ssv) == Err::<
                                        Seq<SourceSpec>,
                                        Seq<ErrorSpec>,
                                    >(tesv));
                                    assert(spec_format_target(ctx, tkey, ssv) == Err::<
                                        (Seq<char>, Seq<SourceSpec>),
                                        Seq<ErrorSpec>,
                                    >(tesv));
                                    if spec_format_stage(ctx, st.take(i as int)) is Ok {
                                        assert(pre_errs.len() == 0);
                                        assert(errors@ =~= tesv);
                                    } else {
                                        assert(errors@ =~= pre_errs + tesv);
                                    }
                                }
                            }
                        },
                    }
                },
            }
            i = i + 1;
        }
        proof {
            assert(st.take(self.0@.len() as int) =~= st);
            lemma_format_stage_err_nonempty(ctx, st);
        }
        match errors.ok(()) {
            Ok(_) => {
                let stage = builder::Stage::new(pairs);
                Ok(stage)
            },
            Err(es) => Err(es),
        }
    }
}

/// A failed per-target source formatting always carries at least one error.
proof fn lemma_format_sources_err_nonempty(ctx: Map<Seq<char>, Seq<char>>, sources: Seq<SourceView>)
    ensures
        spec_format_sources(ctx, sources) matches Err(es) ==> es.len() > 0,
    decreases sources.len(),
{
    if sources.len() > 0 {
        lemma_format_sources_err_nonempty(ctx, sources.drop_last());
    }
}

/// A failed stage formatting always carries at least one error.
proof fn lemma_format_stage_err_nonempty(
    ctx: Map<Seq<char>, Seq<char>>,
    stage: Seq<(Seq<char>, Seq<SourceView>)>,
)
    ensures
        spec_format_stage(ctx, stage) matches Err(es) ==> es.len() > 0,
    decreases stage.len(),
{
    if stage.len() > 0 {
        lemma_format_stage_err_nonempty(ctx, stage.drop_last());
        lemma_format_sources_err_nonempty(ctx, stage.last().1);
    }
}

/// The errors one stage entry contributes to formatting, empty when it
/// formats.
pub open spec fn spec_target_errors(
    ctx: Map<Seq<char>, Seq<char>>,
    target: Seq<char>,
    sources: Seq<SourceView>,
) -> Seq<ErrorSpec> {
    match spec_format_target(ctx, target, sources) {
        Ok(_) => Seq::<ErrorSpec>::empty(),
        Err(es) => es,
    }
}

/// The errors a whole formatting pass reports, empty when it succeeds.
pub open spec fn spec_stage_errors(
    ctx: Map<Seq<char>, Seq<char>>,
    stage: Seq<(Seq<char>, Seq<SourceView>)>,
) -> Seq<ErrorSpec> {
    match spec_format_stage(ctx, stage) {
        Ok(_) => Seq::<ErrorSpec>::empty(),
        Err(es) => es,
    }
}

/// A failing entry's errors all reach the formatting aggregate.
proof fn lemma_format_reports_failure(
    ctx: Map<Seq<char>, Seq<char>>,
    stage: Seq<(Seq<char>, Seq<SourceView>)>,
    k: int,
)
    requires
        0 <= k < stage.len(),
        spec_format_target(ctx, stage[k].0, stage[k].1) is Err,
    ensures
        spec_format_stage(ctx, stage) is Err,
        forall|e: ErrorSpec|
            spec_target_errors(ctx, stage[k].0, stage[k].1).contains(e)
                ==> #[trigger] spec_stage_errors(ctx, stage).contains(e),
    decreases stage.len(),
{
    let tes = spec_target_errors(ctx, stage[k].0, stage[k].1);
    if k == stage.len() - 1 {
        assert(stage.last() == stage[k]);
        match spec_format_stage(ctx, stage.drop_last()) {
            Ok(_) => {
                assert(spec_stage_errors(ctx, stage) == tes);
            },
            Err(es) => {
                assert(spec_stage_errors(ctx, stage) == es + tes);
                assert forall|e: ErrorSpec| tes.contains(e) implies #[trigger] spec_stage_errors(
                    ctx,
                    stage,
                ).contains(e) by {
                    lemma_concat_contains(es, tes, e);
                }
            },
        }
    } else {
        assert(stage.drop_last()[k] == stage[k]);
        lemma_format_reports_failure(ctx, stage.drop_last(), k);
        let es = spec_stage_errors(ctx, stage.drop_last());
        match spec_format_target(ctx, stage.last().0, stage.last().1) {
            Ok(_) => {
                assert(spec_stage_errors(ctx, stage) == es);
            },
            Err(tes2) => {
                assert(spec_stage_errors(ctx, stage) == es + tes2);
                assert forall|e: ErrorSpec| tes.contains(e) implies #[trigger] spec_stage_errors(
                    ctx,
                    stage,
                ).contains(e) by {
                    lemma_concat_contains(es, tes2, e);
                }
            },
        }
    }
}

/// Formatting aggregates instead of stopping at the first problem: when two
/// different entries of one stage each fail to format — an invalid target
/// key or invalid sources under it — the one formatting pass fails with an
/// aggregate that holds every error of both entries, not just the first.
pub proof fn lemma_format_reports_both_failures(
    ctx: Map<Seq<char>, Seq<char>>,
    stage: Seq<(Seq<char>, Seq<SourceView>)>,
    i: int,
    j: int,
)
    requires
        0 <= i < stage.len(),
        0 <= j < stage.len(),
        i != j,
        spec_format_target(ctx, stage[i].0, stage[i].1) is Err,
        spec_format_target(ctx, stage[j].0, stage[j].1) is Err,
    ensures
        spec_format_stage(ctx, stage) is Err,
        forall|e: ErrorSpec|
            spec_target_errors(ctx, stage[i].0, stage[i].1).contains(e)
                ==> #[trigger] spec_stage_errors(ctx, stage).contains(e),
        forall|e: ErrorSpec|
            spec_target_errors(ctx, stage[j].0, stage[j].1).contains(e)
                ==> #[trigger] spec_stage_errors(ctx, stage).contains(e),
{
    lemma_format_reports_failure(ctx, stage, i);
    lemma_format_reports_failure(ctx, stage, j);
}

} // verus!
