use md_pdf_export::layout::{DrawOp, Layout};
use md_pdf_export::paths::{
    check_convertible, check_input_paths, common_root, input_output_dir, is_image, is_markdown,
    is_zip, output_root, parent_of,
    InputError, ProcessedInput,
};
use md_pdf_export::reduce::{commands_of, trim_chars, Command, MdEvent};
use md_pdf_export::render::{file_heading, image_target, ImageProbe, ImageTarget, RenderError};

fn chars(s: &str) -> Vec<char> {
    s.chars().collect()
}

fn text_of(v: &[char]) -> String {
    v.iter().collect()
}

fn texts(ops: &[DrawOp]) -> Vec<String> {
    ops.iter()
        .filter_map(|op| match op {
            DrawOp::Text { text, .. } => Some(text_of(text)),
            DrawOp::Image { .. } => None,
        })
        .collect()
}

#[test]
fn heading_and_paragraph_give_two_blocks_on_one_page() {
    let events = vec![
        MdEvent::HeadingStart(1),
        MdEvent::Text(chars("Title")),
        MdEvent::HeadingEnd,
        MdEvent::ParagraphStart,
        MdEvent::Text(chars("Hello world")),
        MdEvent::ParagraphEnd,
    ];
    let cmds = commands_of(&events);
    assert_eq!(cmds.len(), 2);
    match &cmds[0] {
        Command::Heading(level, t) => {
            assert_eq!(*level, 1);
            assert_eq!(text_of(t), "Title");
        }
        other => panic!("heading expected, got {:?}", other),
    }
    match &cmds[1] {
        Command::Paragraph(t) => assert_eq!(text_of(t), "Hello world"),
        other => panic!("paragraph expected, got {:?}", other),
    }
    let mut layout = Layout::new();
    for c in &cmds {
        layout.apply(c);
    }
    assert_eq!(layout.page_count(), 1);
    assert_eq!(texts(&layout.ops), vec!["Title", "Hello world"]);
}

#[test]
fn remote_image_draws_nothing() {
    let events = vec![
        MdEvent::ParagraphStart,
        MdEvent::ImageStart(chars("http://example.com/a.png")),
        MdEvent::Text(chars("alt")),
        MdEvent::ImageEnd,
        MdEvent::ParagraphEnd,
    ];
    let cmds = commands_of(&events);
    let base = chars("docs/readme.md");
    let mut layout = Layout::new();
    for c in &cmds {
        match c {
            Command::Image(dest) => match image_target(&base, dest) {
                ImageTarget::Remote => {}
                ImageTarget::Local(_) => panic!("remote expected"),
            },
            other => layout.apply(other),
        }
    }
    assert!(layout.ops.iter().all(|op| matches!(op, DrawOp::Text { .. })));
    assert!(matches!(image_target(&base, &chars("https://x.org/b.png")), ImageTarget::Remote));
}

#[test]
fn missing_image_is_not_found() {
    let base = chars("docs/readme.md");
    let path = match image_target(&base, &chars("img/missing.png")) {
        ImageTarget::Local(p) => p,
        ImageTarget::Remote => panic!("local expected"),
    };
    assert_eq!(text_of(&path), "docs/img/missing.png");
    let mut layout = Layout::new();
    match layout.place_image(&path, ImageProbe::Missing) {
        Err(RenderError::NotFound(p)) => assert_eq!(text_of(&p), "docs/img/missing.png"),
        other => panic!("not found expected, got {:?}", other),
    }
    assert!(layout.ops.is_empty());
    assert_eq!(layout.page_count(), 1);
}

#[test]
fn unreadable_image_is_io_error() {
    let mut layout = Layout::new();
    match layout.place_image(&chars("a.png"), ImageProbe::Unreadable(chars("bad data"))) {
        Err(RenderError::Io(m)) => assert_eq!(text_of(&m), "bad data"),
        other => panic!("io error expected, got {:?}", other),
    }
}

#[test]
fn readable_image_is_drawn() {
    let mut layout = Layout::new();
    assert!(layout.place_image(&chars("a.png"), ImageProbe::Size(10, 10)).is_ok());
    assert_eq!(layout.ops.len(), 1);
}

#[test]
fn image_paths_resolve() {
    let t = image_target(&chars("/abs/dir/file.md"), &chars("pic.png"));
    assert!(matches!(t, ImageTarget::Local(ref p) if text_of(p) == "/abs/dir/pic.png"));
    let t = image_target(&chars("file.md"), &chars("pic.png"));
    assert!(matches!(t, ImageTarget::Local(ref p) if text_of(p) == "pic.png"));
    let t = image_target(&chars("a/file.md"), &chars("/etc/pic.png"));
    assert!(matches!(t, ImageTarget::Local(ref p) if text_of(p) == "/etc/pic.png"));
}

#[test]
fn two_files_give_two_headings_in_order() {
    let mut layout = Layout::new();
    for f in ["notes/a.md", "notes/b.md"] {
        layout.begin_file(&chars(f));
        let events = vec![MdEvent::ParagraphStart, MdEvent::Text(chars("body")), MdEvent::ParagraphEnd];
        for c in &commands_of(&events) {
            layout.apply(c);
        }
    }
    assert_eq!(texts(&layout.ops), vec!["File: a.md", "body", "File: b.md", "body"]);
}

#[test]
fn file_heading_fallback() {
    assert_eq!(text_of(&file_heading(&chars("dir/x.markdown"))), "File: x.markdown");
    assert_eq!(text_of(&file_heading(&chars("dir/sub/"))), "File: sub");
    assert_eq!(text_of(&file_heading(&chars(""))), "File: Markdown File");
    assert_eq!(text_of(&file_heading(&chars("a/.."))), "File: Markdown File");
}

#[test]
fn list_events_collect_trimmed_items() {
    let events = vec![
        MdEvent::ListStart,
        MdEvent::ItemStart,
        MdEvent::Text(chars("  one ")),
        MdEvent::ItemEnd,
        MdEvent::ItemStart,
        MdEvent::Text(chars("   ")),
        MdEvent::ItemEnd,
        MdEvent::ItemStart,
        MdEvent::Code(chars("two")),
        MdEvent::ItemEnd,
        MdEvent::ListEnd,
    ];
    let cmds = commands_of(&events);
    assert_eq!(cmds.len(), 1);
    match &cmds[0] {
        Command::List(items) => {
            let got: Vec<String> = items.iter().map(|i| text_of(i)).collect();
            assert_eq!(got, vec!["one", "two"]);
        }
        other => panic!("list expected, got {:?}", other),
    }
}

#[test]
fn code_block_keeps_breaks_and_text() {
    let events = vec![
        MdEvent::CodeBlockStart,
        MdEvent::Text(chars("let a = 1;\n")),
        MdEvent::SoftBreak,
        MdEvent::Text(chars("  b")),
        MdEvent::CodeBlockEnd,
        MdEvent::Rule,
    ];
    let cmds = commands_of(&events);
    assert_eq!(cmds.len(), 2);
    match &cmds[0] {
        Command::CodeBlock(t) => assert_eq!(text_of(t), "let a = 1;\n\n  b"),
        other => panic!("code expected, got {:?}", other),
    }
    assert!(matches!(cmds[1], Command::Rule));
}

#[test]
fn breaks_outside_code() {
    let events = vec![
        MdEvent::ParagraphStart,
        MdEvent::Text(chars("a")),
        MdEvent::SoftBreak,
        MdEvent::Text(chars("b")),
        MdEvent::HardBreak,
        MdEvent::Text(chars("c")),
        MdEvent::Other,
        MdEvent::ParagraphEnd,
    ];
    let cmds = commands_of(&events);
    match &cmds[0] {
        Command::Paragraph(t) => assert_eq!(text_of(t), "a b\nc"),
        other => panic!("paragraph expected, got {:?}", other),
    }
}

#[test]
fn unterminated_constructs_are_dropped() {
    let events = vec![MdEvent::ParagraphStart, MdEvent::Text(chars("open"))];
    assert!(commands_of(&events).is_empty());
}

#[test]
fn trim_both_ends() {
    assert_eq!(text_of(&trim_chars(&chars("\t a b \n"))), "a b");
    assert_eq!(text_of(&trim_chars(&chars("   "))), "");
}

#[test]
fn markdown_and_image_extensions() {
    assert!(is_markdown(&chars("a/b/readme.md")));
    assert!(is_markdown(&chars("notes.markdown")));
    assert!(!is_markdown(&chars("a.md.txt")));
    assert!(!is_markdown(&chars(".md")));
    assert!(!is_markdown(&chars("md")));
    for ext in ["png", "jpg", "jpeg", "gif", "webp", "bmp"] {
        assert!(is_image(&chars(&format!("x/pic.{}", ext))));
    }
    assert!(!is_image(&chars("pic.tiff")));
    assert!(!is_image(&chars("pic.PNG")));
}

#[test]
fn common_root_of_paths() {
    let r = common_root(&vec![chars("/home/u/docs/a"), chars("/home/u/docs/b/c"), chars("/home/u/x")]);
    assert_eq!(r.map(|v| text_of(&v)), Some("/home/u".to_string()));
    let r = common_root(&vec![chars("a/b"), chars("c/d")]);
    assert!(r.is_none());
    let r = common_root(&vec![chars("a//b/./c/"), chars("a/b/c/d")]);
    assert_eq!(r.map(|v| text_of(&v)), Some("a/b/c".to_string()));
    assert!(common_root(&vec![]).is_none());
    let r = common_root(&vec![chars("/x"), chars("/y")]);
    assert_eq!(r.map(|v| text_of(&v)), Some("/".to_string()));
}

#[test]
fn output_root_falls_back_to_first() {
    let r = output_root(&vec![chars("/x"), chars("/y")]);
    assert_eq!(r.map(|v| text_of(&v)), Some("/x".to_string()));
    let r = output_root(&vec![chars("/a/b"), chars("/a/c")]);
    assert_eq!(r.map(|v| text_of(&v)), Some("/a".to_string()));
    assert!(output_root(&vec![]).is_none());
}

#[test]
fn input_checks() {
    assert_eq!(check_input_paths(&vec![]), Err(InputError::NoInputPaths));
    assert_eq!(check_input_paths(&vec!["a.md".to_string()]), Ok(()));
    let empty = ProcessedInput { markdown_files: vec![], image_files: vec!["a.png".to_string()], root: ".".to_string() };
    assert_eq!(check_convertible(&empty), Err(InputError::NoMarkdownFiles));
    let some = ProcessedInput { markdown_files: vec!["a.md".to_string()], image_files: vec![], root: ".".to_string() };
    assert_eq!(check_convertible(&some), Ok(()));
}

#[test]
fn zip_inputs_and_output_dirs() {
    assert!(is_zip(&chars("bundle/docs.zip")));
    assert!(!is_zip(&chars("docs.zip.md")));
    assert!(!is_zip(&chars(".zip")));
    assert_eq!(text_of(&parent_of(&chars("a/b/c.md"))), "a/b");
    assert_eq!(text_of(&parent_of(&chars("/c.md"))), "/");
    assert_eq!(text_of(&parent_of(&chars("c.md"))), "");
    assert_eq!(text_of(&parent_of(&chars("a//b/"))), "a");
    assert_eq!(text_of(&parent_of(&chars("/"))), ".");
    assert_eq!(text_of(&input_output_dir(&chars("a/b/c.zip"), true)), "a/b");
    assert_eq!(text_of(&input_output_dir(&chars("a/b"), false)), "a/b");
}
