use altostratus::args::{early_parse_result, files_to_load, Args, ParseResult};
use altostratus::color::{Color, ExportFormat};
use altostratus::command::{
    parse_export_arguments, CommandAction, CommandState, KeyInput, KeyResponse,
};
use altostratus::pointfile::{
    classify_line, scan_point_file, EntryColor, FormatErrorKind, LineOutcome, ShapeKind,
};

fn strings(v: &[&str]) -> Vec<String> {
    v.iter().map(|s| s.to_string()).collect()
}

#[test]
fn color_names_ignore_case() {
    assert_eq!(Color::from_string("Red"), Some(Color::Red));
    assert_eq!(Color::from_string("BLACK"), Some(Color::Black));
    assert_eq!(Color::from_string("cYaN"), Some(Color::Cyan));
    assert_eq!(Color::from_string("magenta"), Some(Color::Magenta));
    assert_eq!(Color::from_string("Yellow"), Some(Color::Yellow));
    assert_eq!(Color::from_string("green"), Some(Color::Green));
    assert_eq!(Color::from_string("blue"), Some(Color::Blue));
}

#[test]
fn white_and_default_name_the_default_color() {
    assert_eq!(Color::from_string("white"), Some(Color::Default));
    assert_eq!(Color::from_string("DEFAULT"), Some(Color::Default));
}

#[test]
fn unknown_color_names_give_none() {
    assert_eq!(Color::from_string("purple"), None);
    assert_eq!(Color::from_string(""), None);
    assert_eq!(Color::from_string(" red"), None);
}

#[test]
fn lowercase_names_are_matched_exactly() {
    assert_eq!(Color::from_lowercase_name("red"), Some(Color::Red));
    assert_eq!(Color::from_lowercase_name("Red"), None);
}

#[test]
fn no_arguments_shows_usage() {
    assert!(matches!(early_parse_result(&strings(&["altostratus"])), Some(ParseResult::ShowUsage)));
}

#[test]
fn help_flags_show_detailed_help() {
    assert!(matches!(early_parse_result(&strings(&["a", "-h"])), Some(ParseResult::ShowDetailedHelp)));
    assert!(matches!(early_parse_result(&strings(&["a", "--help"])), Some(ParseResult::ShowDetailedHelp)));
}

#[test]
fn other_arguments_need_parsing() {
    assert!(early_parse_result(&strings(&["a", "points.txt"])).is_none());
    assert!(early_parse_result(&strings(&["a", "-h", "x"])).is_none());
    assert!(early_parse_result(&strings(&[])).is_none());
}

#[test]
fn positional_file_comes_first() {
    let args = Args { file: Some("a.txt".to_string()), files: strings(&["b.txt", "c.txt"]), detailed_help: false };
    match files_to_load(args) {
        ParseResult::LoadFiles(v) => assert_eq!(v, strings(&["a.txt", "b.txt", "c.txt"])),
        _ => panic!("expected files"),
    }
}

#[test]
fn no_files_shows_usage() {
    let args = Args { file: None, files: Vec::new(), detailed_help: false };
    assert!(matches!(files_to_load(args), ParseResult::ShowUsage));
}

#[test]
fn detailed_help_flag_shows_detailed_help() {
    let args = Args { file: None, files: Vec::new(), detailed_help: true };
    assert!(matches!(files_to_load(args), ParseResult::ShowDetailedHelp));
    let args = Args { file: Some("a.txt".to_string()), files: Vec::new(), detailed_help: true };
    assert!(matches!(files_to_load(args), ParseResult::ShowDetailedHelp));
}

fn typed(text: &str) -> CommandState {
    let mut c = CommandState::new();
    c.enter_command_mode();
    for ch in text.chars() {
        c.add_char(ch);
    }
    c
}

#[test]
fn load_command_gives_trimmed_path() {
    let mut c = typed("  load   data/points.txt  ");
    match c.execute_command() {
        CommandAction::Load(p) => assert_eq!(p, "data/points.txt"),
        _ => panic!("expected load"),
    }
    assert!(c.active);
}

#[test]
fn export_commands_give_file_and_format() {
    let mut c = typed("export out.html --html");
    match c.execute_command() {
        CommandAction::Export(Some(p), ExportFormat::Html) => assert_eq!(p, "out.html"),
        _ => panic!("expected html export"),
    }
    let mut c = typed("export --color");
    assert!(matches!(c.execute_command(), CommandAction::Export(None, ExportFormat::Color)));
    let mut c = typed("export view.txt");
    match c.execute_command() {
        CommandAction::Export(Some(p), ExportFormat::Plain) => assert_eq!(p, "view.txt"),
        _ => panic!("expected plain export"),
    }
    let mut c = typed("export");
    assert!(matches!(c.execute_command(), CommandAction::Export(None, ExportFormat::Plain)));
}

#[test]
fn export_arguments_parse() {
    let rest: Vec<char> = "my view.txt --color".chars().collect();
    let (p, f) = parse_export_arguments(&rest);
    assert_eq!(p.as_deref(), Some("my view.txt"));
    assert!(matches!(f, ExportFormat::Color));
    let rest: Vec<char> = "x--html".chars().collect();
    let (p, f) = parse_export_arguments(&rest);
    assert_eq!(p.as_deref(), Some("x--html"));
    assert!(matches!(f, ExportFormat::Plain));
}

#[test]
fn clear_command_closes_prompt() {
    let mut c = typed("clear");
    assert!(matches!(c.execute_command(), CommandAction::Clear));
    assert!(!c.active);
    assert_eq!(c.buffer, "");
}

#[test]
fn unknown_command_sets_error() {
    let mut c = typed("fly");
    assert!(matches!(c.execute_command(), CommandAction::Nothing));
    assert_eq!(c.error_message.as_deref(), Some("Unknown command"));
    assert_eq!(c.get_display_text(), "ERROR: Unknown command (press ESC to continue)");
    assert!(c.has_message());
    c.clear_messages();
    assert!(!c.has_message());
}

#[test]
fn empty_command_does_nothing() {
    let mut c = typed("   ");
    assert!(matches!(c.execute_command(), CommandAction::Nothing));
    assert!(c.error_message.is_none());
    assert!(c.active);
}

#[test]
fn backspace_undoes_typing() {
    let mut c = typed("loa");
    c.add_char('x');
    c.backspace();
    assert_eq!(c.buffer, "loa");
    assert_eq!(c.get_display_text(), "Command: loa_");
    let mut e = CommandState::new();
    e.backspace();
    assert_eq!(e.buffer, "");
}

#[test]
fn enter_and_exit_command_mode() {
    let mut c = typed("abc");
    c.error_message = Some("old".to_string());
    c.exit_command_mode();
    assert!(!c.active);
    assert_eq!(c.buffer, "");
    assert!(c.error_message.is_some());
    c.enter_command_mode();
    assert!(c.active);
    assert!(c.error_message.is_none());
    assert!(c.success_message.is_none());
}

#[test]
fn load_outcomes_set_messages() {
    let mut c = typed("load a");
    assert!(!c.load_finished(Ok(0)));
    assert_eq!(c.error_message.as_deref(), Some("No points found in file"));
    let mut c = typed("load a");
    assert!(!c.load_finished(Err("missing".to_string())));
    assert_eq!(c.error_message.as_deref(), Some("Failed to load: missing"));
    let mut c = typed("load a");
    assert!(c.load_finished(Ok(12)));
    assert!(!c.active);
}

#[test]
fn export_outcomes_set_messages() {
    let mut c = typed("export a.txt");
    c.export_finished("a.txt", Ok(()));
    assert_eq!(c.success_message.as_deref(), Some("Exported to: a.txt"));
    assert!(!c.active);
    assert_eq!(c.get_display_text(), "SUCCESS: Exported to: a.txt (press ESC to continue)");
    let mut c = typed("export a.txt");
    c.export_finished("a.txt", Err("denied".to_string()));
    assert_eq!(c.error_message.as_deref(), Some("Export failed: denied"));
    assert!(c.active);
}

fn line(text: &str, number: usize) -> LineOutcome {
    let chars: Vec<char> = text.chars().collect();
    classify_line(&chars, number)
}

#[test]
fn comments_and_blank_lines_are_skipped() {
    assert!(matches!(line("", 1), LineOutcome::Skip));
    assert!(matches!(line("   \t ", 1), LineOutcome::Skip));
    assert!(matches!(line("  # p 1 2 3", 1), LineOutcome::Skip));
}

#[test]
fn point_line_with_optional_color() {
    match line(" p 1 2.5 -3 Red ", 4) {
        LineOutcome::Entry(e) => {
            assert_eq!(e.line_number, 4);
            assert_eq!(e.kind, ShapeKind::Point);
            assert_eq!(e.coordinates, strings(&["1", "2.5", "-3"]));
            assert!(matches!(e.color, EntryColor::Known(Color::Red)));
        }
        _ => panic!("expected entry"),
    }
    match line("p 1 2 3 sparkly", 1) {
        LineOutcome::Entry(e) => assert!(matches!(e.color, EntryColor::Known(Color::Default))),
        _ => panic!("expected entry"),
    }
}

#[test]
fn colored_point_needs_known_color() {
    match line("pc 1 2 3 sparkly", 2) {
        LineOutcome::Entry(e) => match e.color {
            EntryColor::Unknown(name) => assert_eq!(name, "sparkly"),
            _ => panic!("expected unknown color"),
        },
        _ => panic!("expected entry"),
    }
}

#[test]
fn segments_have_six_coordinates() {
    match line("lc 0 0 0 1 1 1 blue", 3) {
        LineOutcome::Entry(e) => {
            assert_eq!(e.kind, ShapeKind::Segment);
            assert_eq!(e.coordinates, strings(&["0", "0", "0", "1", "1", "1"]));
            assert!(matches!(e.color, EntryColor::Known(Color::Blue)));
        }
        _ => panic!("expected entry"),
    }
}

#[test]
fn plain_triple_is_a_point() {
    match line("1 2 3", 9) {
        LineOutcome::Entry(e) => {
            assert_eq!(e.kind, ShapeKind::Point);
            assert_eq!(e.coordinates, strings(&["1", "2", "3"]));
            assert!(matches!(e.color, EntryColor::Known(Color::Default)));
        }
        _ => panic!("expected entry"),
    }
}

#[test]
fn malformed_lines_report_their_form() {
    let cases = [
        ("p 1 2", FormatErrorKind::Point),
        ("p 1 2 3 4 5", FormatErrorKind::Point),
        ("pc 1 2 3", FormatErrorKind::ColoredPoint),
        ("l 1 2 3", FormatErrorKind::Segment),
        ("lc 1 2 3 4 5 6", FormatErrorKind::ColoredSegment),
        ("1 2", FormatErrorKind::Unrecognized),
    ];
    for (text, kind) in cases {
        match line(&format!("  {}  ", text), 7) {
            LineOutcome::Error(e) => {
                assert_eq!(e.kind, kind);
                assert_eq!(e.line_number, 7);
                assert_eq!(e.line, text);
            }
            _ => panic!("expected error for {}", text),
        }
    }
}

#[test]
fn scan_reads_entries_in_order() {
    let (entries, err) = scan_point_file("p 1 2 3\r\n# note\n\nl 0 0 0 1 1 1\n4 5 6");
    assert!(err.is_none());
    assert_eq!(entries.len(), 3);
    assert_eq!(entries[0].line_number, 1);
    assert_eq!(entries[1].line_number, 4);
    assert_eq!(entries[1].kind, ShapeKind::Segment);
    assert_eq!(entries[2].coordinates, strings(&["4", "5", "6"]));
}

#[test]
fn scan_stops_at_first_malformed_line() {
    let (entries, err) = scan_point_file("1 2 3\nq 1\n4 5 6\n");
    assert_eq!(entries.len(), 1);
    let err = err.expect("malformed line");
    assert_eq!(err.line_number, 2);
    assert_eq!(err.kind, FormatErrorKind::Unrecognized);
    assert_eq!(err.line, "q 1");
}

#[test]
fn scan_of_empty_text_is_empty() {
    let (entries, err) = scan_point_file("");
    assert!(entries.is_empty());
    assert!(err.is_none());
}

#[test]
fn p_prefix_and_plain_triple_agree() {
    let (a, b) = (line("p 7 8 9", 1), line("7 8 9", 1));
    match (a, b) {
        (LineOutcome::Entry(x), LineOutcome::Entry(y)) => {
            assert_eq!(x.kind, y.kind);
            assert_eq!(x.coordinates, y.coordinates);
            assert!(matches!(x.color, EntryColor::Known(Color::Default)));
            assert!(matches!(y.color, EntryColor::Known(Color::Default)));
        }
        _ => panic!("expected two entries"),
    }
}

fn shapes(content: &str) -> (Vec<(ShapeKind, Vec<String>)>, Option<(FormatErrorKind, String)>) {
    let (entries, err) = scan_point_file(content);
    (
        entries.into_iter().map(|e| (e.kind, e.coordinates)).collect(),
        err.map(|e| (e.kind, e.line)),
    )
}

#[test]
fn joined_files_read_as_one_after_the_other() {
    let (first, _) = scan_point_file("p 1 2 3\n");
    let (second, _) = scan_point_file("l 0 0 0 1 1 1\n4 5 6");
    let (both, err) = scan_point_file("p 1 2 3\nl 0 0 0 1 1 1\n4 5 6");
    assert!(err.is_none());
    assert_eq!(both.len(), first.len() + second.len());
    assert_eq!(both[1].coordinates, second[0].coordinates);
    assert_eq!(both[1].line_number, second[0].line_number + 1);
    assert_eq!(both[2].line_number, 3);
}

#[test]
fn inserted_comment_changes_no_entry() {
    assert_eq!(shapes("p 1 2 3\nq 7\n"), shapes("p 1 2 3\n  # a note\nq 7\n"));
    assert_eq!(shapes("1 2 3\n4 5 6"), shapes("1 2 3\n\t \n4 5 6"));
    let (_, err) = scan_point_file("p 1 2 3\n# a note\nq 7\n");
    assert_eq!(err.map(|e| e.line_number), Some(3));
}

#[test]
fn legacy_line_reads_as_point_line() {
    let plain = line(" 1 -2 3.5 ", 1);
    let marked = line("p  1 -2 3.5 ", 1);
    match (plain, marked) {
        (LineOutcome::Entry(a), LineOutcome::Entry(b)) => {
            assert_eq!(a.kind, b.kind);
            assert_eq!(a.coordinates, b.coordinates);
            assert!(matches!(a.color, EntryColor::Known(Color::Default)));
            assert!(matches!(b.color, EntryColor::Known(Color::Default)));
        }
        _ => panic!("expected two entries"),
    }
}

fn key(ch: char) -> KeyInput {
    KeyInput::Char { ch, control_only: false }
}

#[test]
fn keys_drive_the_prompt() {
    let mut c = CommandState::new();
    assert_eq!(c.handle_key(key('x')), KeyResponse::Continue);
    assert!(!c.active);
    assert_eq!(c.handle_key(key('/')), KeyResponse::Continue);
    assert!(c.active);
    c.handle_key(key('l'));
    c.handle_key(key('c'));
    c.handle_key(key('x'));
    assert_eq!(c.buffer, "lcx");
    c.handle_key(KeyInput::Backspace);
    assert_eq!(c.buffer, "lc");
    assert_eq!(c.handle_key(KeyInput::Enter), KeyResponse::RunCommand);
    assert_eq!(c.buffer, "lc");
    c.error_message = Some("oops".to_string());
    c.handle_key(KeyInput::Escape);
    assert!(c.active);
    assert!(c.error_message.is_none());
    c.handle_key(KeyInput::Escape);
    assert!(!c.active);
    assert_eq!(c.buffer, "");
}

#[test]
fn control_c_quits_with_the_prompt_open_or_not() {
    let mut c = CommandState::new();
    assert_eq!(c.handle_key(KeyInput::Char { ch: 'c', control_only: true }), KeyResponse::Quit);
    assert_eq!(c.handle_key(KeyInput::Other), KeyResponse::Continue);
    c.handle_key(key('/'));
    c.handle_key(key('a'));
    assert_eq!(c.handle_key(KeyInput::Char { ch: 'c', control_only: true }), KeyResponse::Quit);
    assert_eq!(c.buffer, "a");
}
