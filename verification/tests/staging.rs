use indexmap::IndexMap;
use kopye::engine::make_tera_context;
use kopye::prompt::Answer;
use kopye::template::accept_segment;
use kopye::template::pending_file;
use kopye::template::place_entry;
use kopye::template::render_path_segments;
use kopye::template::stage_entry;
use kopye::template::stage_file;
use kopye::template::EntryStep;
use kopye::template::PathRendering;
use kopye::template::PathStep;
use kopye::template::PendingFile;
use kopye::template::TemplateFile;
use kopye::template::SourceEntry;
use kopye::template::TemplateError;
use kopye::vfs::VirtualEntry;
use kopye::vfs::VirtualFS;
use tera::Context;
use tera::Tera;

fn context(entries: Vec<(&str, Answer)>) -> Context {
    let mut answers = IndexMap::new();
    for (key, answer) in entries {
        answers.insert(key.to_string(), answer);
    }
    make_tera_context(answers)
}

fn render_path(path: &str, tera: &mut Tera, ctx: &Context) -> Result<Option<String>, TemplateError> {
    let mut step = render_path_segments(path);
    loop {
        match step {
            PathStep::Render(rendering) => {
                let rendered = tera.render_str(&rendering.text, ctx);
                step = rendering.accept(rendered, ctx)?;
            }
            PathStep::Done(path) => return Ok(path),
        }
    }
}

fn stage(
    vfs: &mut VirtualFS,
    entry: &SourceEntry,
    tera: &mut Tera,
    ctx: &Context,
) -> Result<Option<PendingFile>, TemplateError> {
    let mut step = stage_entry(vfs, entry);
    loop {
        match step {
            EntryStep::Render(rendering) => {
                let rendered = tera.render_str(&rendering.path.text, ctx);
                step = rendering.accept(vfs, rendered, ctx)?;
            }
            EntryStep::Read(pending) => return Ok(Some(pending)),
            EntryStep::Done => return Ok(None),
        }
    }
}

fn stage_contents(
    vfs: &mut VirtualFS,
    pending: PendingFile,
    contents: String,
    tera: &mut Tera,
    ctx: &Context,
) -> Result<(), TemplateError> {
    match stage_file(vfs, pending, contents) {
        Some(file) => {
            let rendered = tera.render_str(&file.contents, ctx);
            file.accept(vfs, rendered, ctx)
        }
        None => Ok(()),
    }
}

fn entry(file_name: &str, relative: &str, is_dir: bool) -> SourceEntry {
    SourceEntry { file_name: file_name.to_string(), relative: relative.to_string(), is_dir }
}

#[test]
fn a_directory_that_renders_to_nothing_takes_its_files_with_it() {
    let mut tera = Tera::default();
    let ctx = context(vec![("show", Answer::Bool(false))]);
    let mut vfs = VirtualFS::new();
    let directory = entry("{% if show %}dir{% endif %}", "{% if show %}dir{% endif %}", true);
    let file = entry("file.txt", "{% if show %}dir{% endif %}/file.txt", false);
    assert_eq!(stage(&mut vfs, &directory, &mut tera, &ctx).unwrap(), None);
    assert_eq!(stage(&mut vfs, &file, &mut tera, &ctx).unwrap(), None);
    assert!(vfs.entries.is_empty());
}

#[test]
fn a_directory_that_renders_is_staged_with_its_files() {
    let mut tera = Tera::default();
    let ctx = context(vec![("show", Answer::Bool(true))]);
    let mut vfs = VirtualFS::new();
    let directory = entry("{% if show %}dir{% endif %}", "{% if show %}dir{% endif %}", true);
    let file = entry("file.txt", "{% if show %}dir{% endif %}/file.txt", false);
    assert_eq!(stage(&mut vfs, &directory, &mut tera, &ctx).unwrap(), None);
    let pending = stage(&mut vfs, &file, &mut tera, &ctx).unwrap().unwrap();
    assert_eq!(pending, PendingFile { destination: "dir/file.txt".to_string(), render: false });
    stage_contents(&mut vfs, pending, "plain".to_string(), &mut tera, &ctx).unwrap();
    assert_eq!(
        vfs.entries,
        vec![
            VirtualEntry { destination: Some("dir".to_string()), content: None, is_file: false },
            VirtualEntry {
                destination: Some("dir/file.txt".to_string()),
                content: Some("plain".to_string()),
                is_file: true,
            },
        ]
    );
}

#[test]
fn a_template_file_loses_its_marker_and_has_its_contents_rendered() {
    let mut tera = Tera::default();
    let ctx = context(vec![("name", Answer::String("main".to_string()))]);
    let mut vfs = VirtualFS::new();
    let file = entry("main.rs.tera", "main.rs.tera", false);
    let pending = stage(&mut vfs, &file, &mut tera, &ctx).unwrap().unwrap();
    assert_eq!(pending, PendingFile { destination: "main.rs".to_string(), render: true });
    stage_contents(&mut vfs, pending, "fn {{ name }}() {}".to_string(), &mut tera, &ctx).unwrap();
    assert_eq!(
        vfs.entries,
        vec![VirtualEntry {
            destination: Some("main.rs".to_string()),
            content: Some("fn main() {}".to_string()),
            is_file: true,
        }]
    );
}

#[test]
fn a_file_without_the_marker_is_copied_as_it_is() {
    let mut tera = Tera::default();
    let ctx = context(vec![("name", Answer::String("main".to_string()))]);
    let mut vfs = VirtualFS::new();
    let file = entry("README.md", "README.md", false);
    let pending = stage(&mut vfs, &file, &mut tera, &ctx).unwrap().unwrap();
    assert_eq!(pending, PendingFile { destination: "README.md".to_string(), render: false });
    stage_contents(&mut vfs, pending, "# {{ name }}".to_string(), &mut tera, &ctx).unwrap();
    assert_eq!(vfs.entries[0].content, Some("# {{ name }}".to_string()));
    assert_eq!(vfs.entries[0].destination, Some("README.md".to_string()));
    assert!(vfs.entries[0].is_file);
}

#[test]
fn the_questions_file_is_never_staged() {
    let mut tera = Tera::default();
    let ctx = Context::new();
    let mut vfs = VirtualFS::new();
    let file = entry("blueprint.toml", "blueprint.toml", false);
    assert_eq!(stage(&mut vfs, &file, &mut tera, &ctx).unwrap(), None);
    let nested = entry("blueprint.toml", "{{ broken", false);
    assert_eq!(stage(&mut vfs, &nested, &mut tera, &ctx).unwrap(), None);
    assert!(vfs.entries.is_empty());
}

#[test]
fn the_root_of_a_blueprint_is_staged_as_the_empty_path() {
    let mut tera = Tera::default();
    let ctx = Context::new();
    let mut vfs = VirtualFS::new();
    assert_eq!(stage(&mut vfs, &entry("rust", "", true), &mut tera, &ctx).unwrap(), None);
    assert_eq!(
        vfs.entries,
        vec![VirtualEntry { destination: Some(String::new()), content: None, is_file: false }]
    );
}

#[test]
fn a_path_without_components_renders_to_the_empty_path() {
    let mut tera = Tera::default();
    let ctx = Context::new();
    assert_eq!(render_path("", &mut tera, &ctx).unwrap(), Some(String::new()));
    let mut vfs = VirtualFS::new();
    let pending = stage(&mut vfs, &entry("odd", "", false), &mut tera, &ctx).unwrap();
    assert_eq!(pending, Some(PendingFile { destination: String::new(), render: false }));
    assert!(vfs.entries.is_empty());
}

#[test]
fn path_segments_are_rendered_one_by_one_and_trimmed() {
    let mut tera = Tera::default();
    let ctx = context(vec![
        ("project", Answer::String("demo".to_string())),
        ("tests", Answer::Bool(true)),
    ]);
    let rendered = render_path(
        "{% if tests %} tests {% endif %}/{{ project }}.rs",
        &mut tera,
        &ctx,
    )
    .unwrap();
    assert_eq!(rendered, Some("tests/demo.rs".to_string()));
}

#[test]
fn a_blank_segment_elides_the_path() {
    let mut tera = Tera::default();
    let ctx = context(vec![("tests", Answer::Bool(false))]);
    let rendered =
        render_path("src/{% if tests %}tests{% endif %}/mod.rs", &mut tera, &ctx).unwrap();
    assert_eq!(rendered, None);
    let spaces = render_path("src/{{ '   ' }}/mod.rs", &mut tera, &ctx).unwrap();
    assert_eq!(spaces, None);
}

#[test]
fn a_segment_that_does_not_render_is_a_render_error() {
    let mut tera = Tera::default();
    let ctx = Context::new();
    match render_path("src/{{ missing }}.rs", &mut tera, &ctx) {
        Err(TemplateError::Render { .. }) => {}
        _ => panic!("an unknown variable does not render"),
    }
    let mut vfs = VirtualFS::new();
    let file = entry("{{ missing }}.rs", "{{ missing }}.rs", false);
    assert!(matches!(
        stage(&mut vfs, &file, &mut tera, &ctx),
        Err(TemplateError::Render { .. })
    ));
    assert!(vfs.entries.is_empty());
}

#[test]
fn contents_that_do_not_render_stage_nothing() {
    let mut tera = Tera::default();
    let ctx = Context::new();
    let mut vfs = VirtualFS::new();
    let pending = PendingFile { destination: "a.txt".to_string(), render: true };
    let outcome = stage_contents(&mut vfs, pending, "{{ missing }}".to_string(), &mut tera, &ctx);
    assert!(matches!(outcome, Err(TemplateError::Render { .. })));
    assert!(vfs.entries.is_empty());
}

#[test]
fn the_error_of_a_rendering_keeps_the_context() {
    let mut tera = Tera::default();
    let ctx = context(vec![("kept", Answer::Bool(true))]);
    let failure = tera.render_str("{{ missing }}", &ctx);
    match accept_segment(failure, &ctx) {
        Err(TemplateError::Render { context: held, .. }) => assert_eq!(held, ctx),
        _ => panic!("an error of the engine is handed on"),
    }
}

#[test]
fn a_rendered_segment_is_trimmed_or_dropped() {
    let ctx = Context::new();
    assert_eq!(accept_segment(Ok("  src \n".to_string()), &ctx).unwrap(), Some("src".to_string()));
    assert_eq!(accept_segment(Ok(" \t\n".to_string()), &ctx).unwrap(), None);
    assert_eq!(accept_segment(Ok(String::new()), &ctx).unwrap(), None);
    assert_eq!(accept_segment(Ok("a b".to_string()), &ctx).unwrap(), Some("a b".to_string()));
}

#[test]
fn only_the_marker_as_extension_marks_a_template() {
    assert_eq!(
        pending_file("src/lib.rs.tera".to_string()),
        PendingFile { destination: "src/lib.rs".to_string(), render: true }
    );
    assert_eq!(
        pending_file("src/lib.tera.rs".to_string()),
        PendingFile { destination: "src/lib.tera.rs".to_string(), render: false }
    );
    assert_eq!(
        pending_file(".tera".to_string()),
        PendingFile { destination: ".tera".to_string(), render: false }
    );
    assert_eq!(
        pending_file("tera".to_string()),
        PendingFile { destination: "tera".to_string(), render: false }
    );
    assert_eq!(
        pending_file("Makefile.tera".to_string()),
        PendingFile { destination: "Makefile".to_string(), render: true }
    );
}

#[test]
fn the_context_holds_every_answer_under_its_key() {
    let ctx = context(vec![
        ("name", Answer::String("demo".to_string())),
        ("flag", Answer::Bool(true)),
        ("list", Answer::Array(vec!["a".to_string(), "b".to_string()])),
    ]);
    let mut tera = Tera::default();
    let rendered = tera
        .render_str("{{ name }}|{% if flag %}yes{% endif %}|{{ list | join(sep='+') }}", &ctx)
        .unwrap();
    assert_eq!(rendered, "demo|yes|a+b");
    assert!(ctx.contains_key("name") && ctx.contains_key("flag") && ctx.contains_key("list"));
    assert_eq!(make_tera_context(IndexMap::new()), Context::new());
}

#[test]
fn a_rendered_path_is_placed_by_its_kind() {
    let mut vfs = VirtualFS::new();
    assert_eq!(place_entry(&mut vfs, true, None), None);
    assert_eq!(place_entry(&mut vfs, false, None), None);
    assert!(vfs.entries.is_empty());
    assert_eq!(place_entry(&mut vfs, true, Some("docs".to_string())), None);
    assert_eq!(
        vfs.entries,
        vec![VirtualEntry { destination: Some("docs".to_string()), content: None, is_file: false }]
    );
    assert_eq!(
        place_entry(&mut vfs, false, Some("docs/index.md.tera".to_string())),
        Some(PendingFile { destination: "docs/index.md".to_string(), render: true })
    );
    assert_eq!(vfs.entries.len(), 1);
}

#[test]
fn the_engine_is_asked_for_one_component_at_a_time() {
    let ctx = Context::new();
    let first = match render_path_segments("{{ a }}/b/c.rs") {
        PathStep::Render(rendering) => rendering,
        PathStep::Done(_) => panic!("three components are to be rendered"),
    };
    assert_eq!(
        first,
        PathRendering {
            text: "{{ a }}".to_string(),
            rest: vec!["b".to_string(), "c.rs".to_string()],
            so_far: String::new(),
        }
    );
    let second = first.accept(Ok("  src ".to_string()), &ctx).unwrap();
    assert_eq!(
        second,
        PathStep::Render(PathRendering {
            text: "b".to_string(),
            rest: vec!["c.rs".to_string()],
            so_far: "src".to_string(),
        })
    );
    let third = match second {
        PathStep::Render(rendering) => rendering.accept(Ok("bin".to_string()), &ctx).unwrap(),
        PathStep::Done(_) => panic!("two components are left"),
    };
    let last = match third {
        PathStep::Render(rendering) => rendering.accept(Ok("main.rs\n".to_string()), &ctx).unwrap(),
        PathStep::Done(_) => panic!("one component is left"),
    };
    assert_eq!(last, PathStep::Done(Some("src/bin/main.rs".to_string())));
}

#[test]
fn components_after_a_blank_one_are_never_rendered() {
    let ctx = Context::new();
    let first = match render_path_segments("a/{{ broken/c") {
        PathStep::Render(rendering) => rendering,
        PathStep::Done(_) => panic!("components are to be rendered"),
    };
    assert_eq!(first.accept(Ok(" \u{a0}\t".to_string()), &ctx).unwrap(), PathStep::Done(None));
    let mut tera = Tera::default();
    assert_eq!(render_path("{{ '' }}/{{ broken", &mut tera, &ctx).unwrap(), None);
}

#[test]
fn a_template_is_staged_with_what_the_engine_made_of_it() {
    let ctx = Context::new();
    let mut vfs = VirtualFS::new();
    let pending = PendingFile { destination: "main.rs".to_string(), render: true };
    let file = stage_file(&mut vfs, pending, "fn {{ name }}() {}".to_string()).unwrap();
    assert_eq!(
        file,
        TemplateFile { destination: "main.rs".to_string(), contents: "fn {{ name }}() {}".to_string() }
    );
    assert!(vfs.entries.is_empty());
    file.accept(&mut vfs, Ok("  fn main() {}\n".to_string()), &ctx).unwrap();
    assert_eq!(
        vfs.entries,
        vec![VirtualEntry {
            destination: Some("main.rs".to_string()),
            content: Some("  fn main() {}\n".to_string()),
            is_file: true,
        }]
    );
}

#[test]
fn a_file_that_is_no_template_never_reaches_the_engine() {
    let mut vfs = VirtualFS::new();
    let pending = PendingFile { destination: "README.md".to_string(), render: false };
    assert_eq!(stage_file(&mut vfs, pending, "# {{ name }}".to_string()), None);
    assert_eq!(vfs.entries[0].content, Some("# {{ name }}".to_string()));
}

#[test]
fn white_space_of_every_kind_is_trimmed() {
    let ctx = Context::new();
    assert_eq!(
        accept_segment(Ok("\u{2003}\u{3000}src\u{85}\u{2028}".to_string()), &ctx).unwrap(),
        Some("src".to_string())
    );
    assert_eq!(accept_segment(Ok("\u{1680}\u{205f}\u{202f}\u{2029}\u{b}\u{c}\r".to_string()), &ctx).unwrap(), None);
    assert_eq!(
        accept_segment(Ok("\u{200b}".to_string()), &ctx).unwrap(),
        Some("\u{200b}".to_string())
    );
}
