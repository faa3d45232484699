//! Staging a blueprint: each entry of the blueprint's tree has its path
//! rendered segment by segment, and becomes an entry of the staged tree
//! unless a segment renders to nothing.
//!
//! Walking the blueprint, reading its files and running the template engine
//! is not done here. The caller hands over what the walk found; this module
//! names each text that is to be rendered and each file that is to be read,
//! and takes what came of it.

use vstd::prelude::*;
use tera::Context;
use crate::collect::PromptError;
use crate::engine::context_entries;
use crate::engine::copy_context;
use crate::errors::IoError;
use crate::paths::components_of;
use crate::paths::extension_of;
use crate::paths::file_stem_of;
use crate::paths::joined;
use crate::paths::parts_of;
use crate::paths::PartKind;
use crate::paths::path_components;
use crate::paths::path_extension;
use crate::paths::path_file_stem;
use crate::paths::path_join;
use crate::paths::path_with_file_name;
use crate::paths::renamed;
use crate::text::is_blank;
use crate::text::is_white_space;
use crate::text::lemma_trimmed;
use crate::text::same_text;
use crate::text::trim_text;
use crate::text::trimmed;
use crate::prompt::texts;
use crate::vfs::EntryView;
use crate::vfs::VirtualEntry;
use crate::vfs::VirtualFS;

verus! {

/// Why a blueprint could not be rendered.
#[derive(Debug)]
pub enum TemplateError {
    Io(IoError),
    ProjectNotFound { name: String },
    Prompt(PromptError),
    Render { context: Context, source: tera::Error },
}

/// The extension that marks a file whose contents are a template.
pub open spec fn template_marker() -> Seq<char> {
    "tera"@
}

/// The name of the file that holds a blueprint's questions.
pub open spec fn questions_file_name() -> Seq<char> {
    "blueprint.toml"@
}

/// What the walk found at one place of the blueprint.
#[derive(Debug, Clone)]
pub struct SourceEntry {
    /// The entry's own name.
    pub file_name: String,
    /// The entry's path below the blueprint's root.
    pub relative: String,
    /// Whether the entry is a directory.
    pub is_dir: bool,
}

/// A file that is to be staged once its contents are known.
#[derive(Debug, Clone, PartialEq, Eq)]
pub struct PendingFile {
    /// Where the file goes.
    pub destination: String,
    /// Whether its contents are a template.
    pub render: bool,
}

/// A rendered segment that counts: it is not empty and has no white space
/// at either end.
pub open spec fn is_segment(s: Seq<char>) -> bool {
    s.len() > 0 && !is_white_space(s[0]) && !is_white_space(s[s.len() - 1])
}

/// The texts of a path's components, in their order.
pub open spec fn segment_texts(parts: Seq<(PartKind, Seq<char>)>) -> Seq<Seq<char>> {
    Seq::new(parts.len(), |i: int| parts[i].1)
}

/// Where a rendered file goes: a path with the template marker as its
/// extension loses it.
pub open spec fn file_destination(rendered: Seq<char>) -> Seq<char> {
    if extension_of(rendered) == Some(template_marker()) {
        renamed(
            rendered,
            match file_stem_of(rendered) {
                Some(stem) => stem,
                None => Seq::empty(),
            },
        )
    } else {
        rendered
    }
}

/// The staged directory at `destination`.
pub open spec fn directory_entry(destination: Seq<char>) -> EntryView {
    EntryView { destination: Some(destination), content: None, is_file: false }
}

/// The staged file at `destination` with `content`.
pub open spec fn file_entry(destination: Seq<char>, content: Seq<char>) -> EntryView {
    EntryView { destination: Some(destination), content: Some(content), is_file: true }
}

/// A path in the middle of its rendering.
#[derive(Debug, PartialEq, Eq)]
pub struct PathRendering {
    /// The text of the component that the engine is to render now.
    pub text: String,
    /// The texts of the components after it.
    pub rest: Vec<String>,
    /// The path built from the components before it.
    pub so_far: String,
}

/// What is to be done next for a path.
#[derive(Debug, PartialEq, Eq)]
pub enum PathStep {
    /// The engine is to render `text`, and `accept` takes what it gives.
    Render(PathRendering),
    /// Nothing is left to render: the rendered path, or `None` if a
    /// component rendered to nothing.
    Done(Option<String>),
}

pub struct PathRenderingView {
    pub text: Seq<char>,
    pub rest: Seq<Seq<char>>,
    pub so_far: Seq<char>,
}

pub enum PathStepView {
    Render(PathRenderingView),
    Done(Option<Seq<char>>),
}

impl View for PathRendering {
    type V = PathRenderingView;

    open spec fn view(&self) -> PathRenderingView {
        PathRenderingView { text: self.text@, rest: texts(self.rest@), so_far: self.so_far@ }
    }
}

impl View for PathStep {
    type V = PathStepView;

    open spec fn view(&self) -> PathStepView {
        match self {
            PathStep::Render(rendering) => PathStepView::Render(rendering@),
            PathStep::Done(Some(path)) => PathStepView::Done(Some(path@)),
            PathStep::Done(None) => PathStepView::Done(None),
        }
    }
}

/// The step that follows once `so_far` is built and the components with
/// `segments` as their texts are left: the first of them is rendered next,
/// and with none left the path is done.
pub open spec fn path_step(so_far: Seq<char>, segments: Seq<Seq<char>>) -> PathStepView {
    if segments.len() == 0 {
        PathStepView::Done(Some(so_far))
    } else {
        PathStepView::Render(
            PathRenderingView { text: segments[0], rest: segments.drop_first(), so_far },
        )
    }
}

/// The step that follows once the engine has made `text` of the component
/// that was to be rendered: a blank text ends the rendering without a path,
/// any other text is adjoined to the path without the white space around
/// it.
pub open spec fn after_segment(rendering: PathRenderingView, text: Seq<char>) -> PathStepView {
    if is_blank(text) {
        PathStepView::Done(None)
    } else {
        path_step(joined(rendering.so_far, trimmed(text)), rendering.rest)
    }
}

/// What the whole rendering of a path comes to when the engine makes
/// `rendered[i]` of the `i`-th component that it is asked for: the path
/// built from the trimmed texts, or `None` from the first blank text on.
pub open spec fn rendered_path(so_far: Seq<char>, rendered: Seq<Seq<char>>) -> Option<Seq<char>>
    decreases rendered.len(),
{
    if rendered.len() == 0 {
        Some(so_far)
    } else if is_blank(rendered[0]) {
        None
    } else {
        rendered_path(joined(so_far, trimmed(rendered[0])), rendered.drop_first())
    }
}

/// Takes what the engine made of one path segment: an error of the engine
/// ends the rendering, a segment of nothing but white space elides the
/// path, and any other segment counts without the white space around it.
pub fn accept_segment(rendered: Result<String, tera::Error>, context: &Context) -> (r: Result<
    Option<String>,
    TemplateError,
>)
    ensures
        match rendered {
            Ok(text) => match r {
                Ok(Some(segment)) => !is_blank(text@) && segment@ == trimmed(text@) && is_segment(
                    segment@,
                ),
                Ok(None) => is_blank(text@),
                Err(_) => false,
            },
            Err(error) => match r {
                Err(TemplateError::Render { context: held, source }) => source == error
                    && context_entries(held) == context_entries(*context),
                _ => false,
            },
        },
{
    match rendered {
        Ok(text) => {
            let kept = trim_text(text.as_str());
            proof {
                lemma_trimmed(text@);
            }
            if kept.is_empty() {
                Ok(None)
            } else {
                Ok(Some(kept.to_owned()))
            }
        },
        Err(error) => Err(TemplateError::Render { context: copy_context(context), source: error }),
    }
}

/// The step for a path of which `so_far` is built and `rest` is left.
fn step_from(so_far: String, rest: Vec<String>) -> (step: PathStep)
    ensures
        step@ == path_step(so_far@, texts(rest@)),
{
    let mut rest = rest;
    if rest.len() == 0 {
        PathStep::Done(Some(so_far))
    } else {
        let ghost before = texts(rest@);
        let text = rest.remove(0);
        proof {
            assert(texts(rest@) =~= before.drop_first());
        }
        PathStep::Render(PathRendering { text, rest, so_far })
    }
}

/// Begins the rendering of `path`: every component is to be rendered as a
/// template of its own, from the first on. A path without components has
/// nothing to render and is done at once, as the empty path.
pub fn render_path_segments(path: &str) -> (step: PathStep)
    ensures
        step@ == path_step(Seq::empty(), segment_texts(components_of(path@))),
{
    let parts = path_components(path);
    let mut segments: Vec<String> = Vec::new();
    let mut i: usize = 0;
    while i < parts.len()
        invariant
            i <= parts.len(),
            segments.len() == i,
            forall|j: int| 0 <= j < i ==> #[trigger] segments[j]@ == parts[j].text@,
        decreases parts.len() - i,
    {
        segments.push(parts[i].text.clone());
        i += 1;
    }
    proof {
        assert(texts(segments@) =~= segment_texts(parts_of(parts@)));
    }
    step_from(String::new(), segments)
}

impl PathRendering {
    /// Takes what the engine made of `text`. An error of the engine ends the
    /// rendering. A blank text ends it too, without a path: the components
    /// that are left are never rendered. Any other text is adjoined to the
    /// path, and the next component is up.
    pub fn accept(self, rendered: Result<String, tera::Error>, context: &Context) -> (r: Result<
        PathStep,
        TemplateError,
    >)
        ensures
            match rendered {
                Ok(text) => r matches Ok(step) && step@ == after_segment(self@, text@),
                Err(error) => match r {
                    Err(TemplateError::Render { context: held, source }) => source == error
                        && context_entries(held) == context_entries(*context),
                    _ => false,
                },
            },
    {
        match accept_segment(rendered, context) {
            Ok(Some(segment)) => Ok(
                step_from(path_join(self.so_far.as_str(), segment.as_str()), self.rest),
            ),
            Ok(None) => Ok(PathStep::Done(None)),
            Err(error) => Err(error),
        }
    }
}

/// The step that is reached from `step` when the engine's texts are taken
/// one after the other, as long as there is something to render and a text
/// for it.
pub open spec fn steps_end(step: PathStepView, rendered: Seq<Seq<char>>) -> PathStepView
    decreases rendered.len(),
{
    match step {
        PathStepView::Render(rendering) => if rendered.len() == 0 {
            step
        } else {
            steps_end(after_segment(rendering, rendered[0]), rendered.drop_first())
        },
        PathStepView::Done(_) => step,
    }
}

/// Rendering a path step by step comes to `rendered_path`: whatever texts
/// the engine gives for the components, the steps end in the path built
/// from all of them, or in no path from the first blank one on.
pub proof fn lemma_steps_build_the_path(so_far: Seq<char>, segments: Seq<Seq<char>>, rendered: Seq<Seq<char>>)
    requires
        rendered.len() == segments.len(),
    ensures
        steps_end(path_step(so_far, segments), rendered) == PathStepView::Done(
            rendered_path(so_far, rendered),
        ),
    decreases segments.len(),
{
    if segments.len() > 0 {
        let rendering = PathRenderingView { text: segments[0], rest: segments.drop_first(), so_far };
        assert(path_step(so_far, segments) == PathStepView::Render(rendering));
        let next = after_segment(rendering, rendered[0]);
        assert(steps_end(path_step(so_far, segments), rendered) == steps_end(
            next,
            rendered.drop_first(),
        ));
        if is_blank(rendered[0]) {
            assert(next == PathStepView::Done(None));
            assert(steps_end(next, rendered.drop_first()) == next);
        } else {
            lemma_steps_build_the_path(
                joined(so_far, trimmed(rendered[0])),
                segments.drop_first(),
                rendered.drop_first(),
            );
        }
    } else {
        assert(steps_end(path_step(so_far, segments), rendered) == path_step(so_far, segments));
    }
}

/// Where a file with the rendered path goes, and whether its contents are
/// a template: a path whose extension is the template marker loses the
/// extension and has its contents rendered.
pub fn pending_file(rendered: String) -> (pending: PendingFile)
    ensures
        pending.destination@ == file_destination(rendered@),
        pending.render == (extension_of(rendered@) == Some(template_marker())),
{
    let marked = match path_extension(rendered.as_str()) {
        Some(extension) => same_text(extension.as_str(), "tera"),
        None => false,
    };
    if marked {
        let stem = match path_file_stem(rendered.as_str()) {
            Some(stem) => stem,
            None => String::new(),
        };
        PendingFile {
            destination: path_with_file_name(rendered.as_str(), stem.as_str()),
            render: true,
        }
    } else {
        PendingFile { destination: rendered, render: false }
    }
}

/// Places an entry whose path was rendered: an elided path places nothing,
/// a directory is staged at its rendered path, and a file is handed back
/// with its destination, to be staged once its contents are known.
pub fn place_entry(vfs: &mut VirtualFS, is_dir: bool, rendered: Option<String>) -> (r: Option<
    PendingFile,
>)
    ensures
        match rendered {
            None => r is None && final(vfs)@ == old(vfs)@,
            Some(path) => if is_dir {
                r is None && final(vfs)@ == old(vfs)@.push(directory_entry(path@))
            } else {
                &&& final(vfs)@ == old(vfs)@
                &&& r matches Some(pending) && pending.destination@ == file_destination(path@)
                    && pending.render == (extension_of(path@) == Some(template_marker()))
            },
        },
{
    match rendered {
        Some(path) => {
            if is_dir {
                let ghost before = vfs@;
                let ghost at = path@;
                vfs.entries.push(VirtualEntry { destination: Some(path), content: None, is_file: false });
                proof {
                    assert(vfs@ =~= before.push(directory_entry(at)));
                }
                None
            } else {
                Some(pending_file(path))
            }
        },
        None => None,
    }
}

/// An entry of the blueprint whose path is in the middle of its rendering.
#[derive(Debug, PartialEq, Eq)]
pub struct EntryRendering {
    /// Whether the entry is a directory.
    pub is_dir: bool,
    /// How far its path has come.
    pub path: PathRendering,
}

/// What is to be done next for an entry of the blueprint.
#[derive(Debug, PartialEq, Eq)]
pub enum EntryStep {
    /// The engine is to render the text of the next path component, and
    /// `accept` takes what it gives.
    Render(EntryRendering),
    /// The entry is a file whose path has rendered: its contents are to be
    /// read and handed to `stage_file`.
    Read(PendingFile),
    /// Nothing is left to do for the entry.
    Done,
}

pub struct PendingFileView {
    pub destination: Seq<char>,
    pub render: bool,
}

pub enum EntryStepView {
    Render { is_dir: bool, path: PathRenderingView },
    Read(PendingFileView),
    Done,
}

impl View for PendingFile {
    type V = PendingFileView;

    open spec fn view(&self) -> PendingFileView {
        PendingFileView { destination: self.destination@, render: self.render }
    }
}

impl View for EntryStep {
    type V = EntryStepView;

    open spec fn view(&self) -> EntryStepView {
        match self {
            EntryStep::Render(rendering) => EntryStepView::Render {
                is_dir: rendering.is_dir,
                path: rendering.path@,
            },
            EntryStep::Read(pending) => EntryStepView::Read(pending@),
            EntryStep::Done => EntryStepView::Done,
        }
    }
}

/// The staged tree and the next step for an entry whose path has come to
/// `step`. While the path is rendered nothing is staged. An elided path
/// drops the entry. A directory is staged at its rendered path, and a file
/// waits for its contents.
pub open spec fn entry_step(vfs: Seq<EntryView>, is_dir: bool, step: PathStepView) -> (
    Seq<EntryView>,
    EntryStepView,
) {
    match step {
        PathStepView::Render(path) => (vfs, EntryStepView::Render { is_dir, path }),
        PathStepView::Done(None) => (vfs, EntryStepView::Done),
        PathStepView::Done(Some(path)) => if is_dir {
            (vfs.push(directory_entry(path)), EntryStepView::Done)
        } else {
            (
                vfs,
                EntryStepView::Read(
                    PendingFileView {
                        destination: file_destination(path),
                        render: extension_of(path) == Some(template_marker()),
                    },
                ),
            )
        },
    }
}

/// The tree and the step for an entry of the blueprint that is looked at
/// for the first time: the questions file is passed over, and the path of
/// any other entry is rendered from its first component on.
pub open spec fn first_entry_step(
    vfs: Seq<EntryView>,
    file_name: Seq<char>,
    relative: Seq<char>,
    is_dir: bool,
) -> (Seq<EntryView>, EntryStepView) {
    if file_name == questions_file_name() {
        (vfs, EntryStepView::Done)
    } else {
        entry_step(vfs, is_dir, path_step(Seq::empty(), segment_texts(components_of(relative))))
    }
}

/// Goes on with an entry whose path has come to `step`.
fn continue_entry(vfs: &mut VirtualFS, is_dir: bool, step: PathStep) -> (next: EntryStep)
    ensures
        (final(vfs)@, next@) == entry_step(old(vfs)@, is_dir, step@),
{
    match step {
        PathStep::Render(path) => EntryStep::Render(EntryRendering { is_dir, path }),
        PathStep::Done(rendered) => match place_entry(vfs, is_dir, rendered) {
            Some(pending) => EntryStep::Read(pending),
            None => EntryStep::Done,
        },
    }
}

/// Begins the staging of one entry of the blueprint. The questions file is
/// passed over. The path of any other entry is rendered component by
/// component; an entry whose path has no components, as the blueprint's
/// own directory has, is placed at the empty path at once.
pub fn stage_entry(vfs: &mut VirtualFS, entry: &SourceEntry) -> (step: EntryStep)
    ensures
        (final(vfs)@, step@) == first_entry_step(
            old(vfs)@,
            entry.file_name@,
            entry.relative@,
            entry.is_dir,
        ),
{
    if same_text(entry.file_name.as_str(), "blueprint.toml") {
        return EntryStep::Done;
    }
    let step = render_path_segments(entry.relative.as_str());
    continue_entry(vfs, entry.is_dir, step)
}

impl EntryRendering {
    /// Takes what the engine made of the text that was to be rendered. An
    /// error of the engine ends the staging and leaves the tree as it is.
    /// A blank text drops the entry. With the last component rendered, a
    /// directory is staged and a file is handed back to be read.
    pub fn accept(
        self,
        vfs: &mut VirtualFS,
        rendered: Result<String, tera::Error>,
        context: &Context,
    ) -> (r: Result<EntryStep, TemplateError>)
        ensures
            match rendered {
                Ok(text) => r matches Ok(step) && (final(vfs)@, step@) == entry_step(
                    old(vfs)@,
                    self.is_dir,
                    after_segment(self.path@, text@),
                ),
                Err(error) => match r {
                    Err(TemplateError::Render { context: held, source }) => {
                        &&& source == error
                        &&& context_entries(held) == context_entries(*context)
                        &&& final(vfs)@ == old(vfs)@
                    },
                    _ => false,
                },
            },
    {
        match self.path.accept(rendered, context) {
            Ok(step) => Ok(continue_entry(vfs, self.is_dir, step)),
            Err(error) => Err(error),
        }
    }
}

/// A file whose contents are a template: the engine is to render
/// `contents`, and `accept` takes what it gives.
#[derive(Debug, PartialEq, Eq)]
pub struct TemplateFile {
    /// Where the file goes.
    pub destination: String,
    /// What the file holds before it is rendered.
    pub contents: String,
}

/// Takes what the engine made of a file's contents.
pub fn accept_content(rendered: Result<String, tera::Error>, context: &Context) -> (r: Result<
    String,
    TemplateError,
>)
    ensures
        match rendered {
            Ok(text) => r matches Ok(content) && content@ == text@,
            Err(error) => match r {
                Err(TemplateError::Render { context: held, source }) => source == error
                    && context_entries(held) == context_entries(*context),
                _ => false,
            },
        },
{
    match rendered {
        Ok(text) => Ok(text),
        Err(error) => Err(TemplateError::Render { context: copy_context(context), source: error }),
    }
}

/// Stages a file once its contents are read. A file that is no template is
/// staged with its contents as they are. A template is not staged yet: it
/// is handed back for the engine to render its contents.
pub fn stage_file(vfs: &mut VirtualFS, pending: PendingFile, contents: String) -> (r: Option<
    TemplateFile,
>)
    ensures
        if pending.render {
            &&& final(vfs)@ == old(vfs)@
            &&& r matches Some(file) && file.destination@ == pending.destination@ && file.contents@
                == contents@
        } else {
            &&& r is None
            &&& final(vfs)@ == old(vfs)@.push(file_entry(pending.destination@, contents@))
        },
{
    if pending.render {
        Some(TemplateFile { destination: pending.destination, contents })
    } else {
        let ghost before = vfs@;
        let ghost staged = file_entry(pending.destination@, contents@);
        vfs.entries.push(
            VirtualEntry { destination: Some(pending.destination), content: Some(contents), is_file: true },
        );
        proof {
            assert(vfs@ =~= before.push(staged));
        }
        None
    }
}

impl TemplateFile {
    /// Takes what the engine made of the contents: the rendered text is
    /// staged as the file's content, and an error of the engine leaves the
    /// tree as it is.
    pub fn accept(self, vfs: &mut VirtualFS, rendered: Result<String, tera::Error>, context: &Context) -> (r:
        Result<(), TemplateError>)
        ensures
            match rendered {
                Ok(text) => r is Ok && final(vfs)@ == old(vfs)@.push(
                    file_entry(self.destination@, text@),
                ),
                Err(error) => match r {
                    Err(TemplateError::Render { context: held, source }) => {
                        &&& source == error
                        &&& context_entries(held) == context_entries(*context)
                        &&& final(vfs)@ == old(vfs)@
                    },
                    _ => false,
                },
            },
    {
        match accept_content(rendered, context) {
            Ok(content) => {
                let ghost before = vfs@;
                let ghost staged = file_entry(self.destination@, content@);
                vfs.entries.push(
                    VirtualEntry {
                        destination: Some(self.destination),
                        content: Some(content),
                        is_file: true,
                    },
                );
                proof {
                    assert(vfs@ =~= before.push(staged));
                }
                Ok(())
            },
            Err(error) => Err(error),
        }
    }
}

} // verus!
