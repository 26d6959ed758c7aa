use altostratus::braille::{BraillePixel, Point2D};
use altostratus::color::{Color, ExportFormat};
use altostratus::screen::Screen;

fn screen(width: u16, height: u16) -> Screen {
    let mut s = Screen::new();
    s.resize(width, height);
    s
}

#[test]
fn blank_pixel_is_empty_braille() {
    assert_eq!(BraillePixel::new().to_char(), '\u{2800}');
}

#[test]
fn each_dot_has_its_bit() {
    let expected = [[0x01u32, 0x08], [0x02, 0x10], [0x04, 0x20], [0x40, 0x80]];
    for row in 0..4 {
        for col in 0..2 {
            let mut p = BraillePixel::new();
            p.set_dot(row, col, true);
            assert!(p.dot(row, col));
            assert_eq!(p.to_char() as u32, 0x2800 + expected[row][col]);
        }
    }
}

#[test]
fn full_pixel_is_all_dots() {
    let mut p = BraillePixel::new();
    for row in 0..4 {
        for col in 0..2 {
            p.set_dot(row, col, true);
        }
    }
    assert_eq!(p.to_char(), '\u{28FF}');
}

#[test]
fn point_new_keeps_coordinates() {
    let p = Point2D::new(-3, 7);
    assert_eq!(p.x, -3);
    assert_eq!(p.y, 7);
}

#[test]
fn new_screen_is_empty() {
    let s = Screen::new();
    assert_eq!(s.width, 0);
    assert_eq!(s.height, 0);
    assert_eq!(s.export_to_string(ExportFormat::Plain), "");
}

#[test]
fn plain_export_of_one_dot() {
    let mut s = screen(4, 4);
    s.write(true, &Point2D::new(0, 0));
    assert_eq!(s.export_to_string(ExportFormat::Plain), "\u{2801}\u{2800}\n");
}

#[test]
fn write_off_raster_does_nothing() {
    let mut s = screen(4, 4);
    s.write(true, &Point2D::new(4, 0));
    s.write(true, &Point2D::new(0, -1));
    s.write_colored(true, &Point2D::new(-1, 2), Color::Red);
    assert_eq!(s.export_to_string(ExportFormat::Plain), "");
}

#[test]
fn color_export_of_one_red_dot() {
    let mut s = screen(4, 4);
    s.write_colored(true, &Point2D::new(0, 0), Color::Red);
    assert_eq!(
        s.export_to_string(ExportFormat::Color),
        "\u{1b}[31m\u{2801}\u{1b}[39m\u{2800}\n"
    );
}

#[test]
fn color_export_resets_color_at_the_end() {
    let mut s = screen(2, 4);
    s.write_colored(true, &Point2D::new(1, 0), Color::Blue);
    assert_eq!(s.export_to_string(ExportFormat::Color), "\u{1b}[34m\u{2808}\u{1b}[39m\n");
}

#[test]
fn html_export_of_one_red_dot() {
    let mut s = screen(4, 4);
    s.write_colored(true, &Point2D::new(0, 0), Color::Red);
    let prefix = "<pre style=\"font-family: monospace; line-height: 1; background-color: #000000; color: #ffffff; padding: 10px; margin: 0; white-space: pre; overflow-x: auto;\">";
    assert_eq!(
        s.export_to_string(ExportFormat::Html),
        format!("{}<span style=\"color: #ff0000\">\u{2801}</span>\u{2800}\n</pre>", prefix)
    );
}

#[test]
fn html_export_of_blank_screen_is_empty_pre() {
    let s = screen(6, 8);
    let html = s.export_to_string(ExportFormat::Html);
    assert!(html.starts_with("<pre style="));
    assert!(html.ends_with("\"></pre>"));
}

#[test]
fn uncolored_color_export_equals_plain() {
    let mut s = screen(10, 8);
    s.write(true, &Point2D::new(3, 5));
    s.write(true, &Point2D::new(8, 1));
    assert_eq!(s.export_to_string(ExportFormat::Color), s.export_to_string(ExportFormat::Plain));
}

#[test]
fn plain_export_has_no_escapes() {
    let mut s = screen(10, 8);
    s.write_colored(true, &Point2D::new(3, 5), Color::Green);
    s.write_colored(true, &Point2D::new(8, 1), Color::Cyan);
    assert!(!s.export_to_string(ExportFormat::Plain).contains('\u{1b}'));
}

#[test]
fn clear_turns_everything_off() {
    let mut s = screen(10, 8);
    s.write_colored(true, &Point2D::new(3, 5), Color::Green);
    s.line(&Point2D::new(0, 0), &Point2D::new(9, 7));
    s.clear();
    assert_eq!(s.width, 10);
    assert_eq!(s.height, 8);
    assert_eq!(s.export_to_string(ExportFormat::Plain), "");
    assert_eq!(s.export_to_string(ExportFormat::Color), "");
}

#[test]
fn trim_keeps_two_cells_of_margin() {
    let mut s = screen(40, 40);
    s.write(true, &Point2D::new(20, 20));
    // Character row 5, column 10; rows 3..=7 and columns 8..=12 are kept.
    let line = "\u{2800}\u{2800}\u{2801}\u{2800}\u{2800}";
    let blank = "\u{2800}\u{2800}\u{2800}\u{2800}\u{2800}";
    let expected = format!("{b}\n{b}\n{l}\n{b}\n{b}\n", b = blank, l = line);
    assert_eq!(s.export_to_string(ExportFormat::Plain), expected);
}

#[test]
fn horizontal_line_stops_before_its_end() {
    let mut s = screen(10, 4);
    s.line(&Point2D::new(0, 0), &Point2D::new(3, 0));
    assert_eq!(
        s.export_to_string(ExportFormat::Plain),
        "\u{2809}\u{2801}\u{2800}\u{2800}\n"
    );
}

#[test]
fn diagonal_line_steps_diagonally() {
    let mut s = screen(4, 4);
    s.line(&Point2D::new(0, 0), &Point2D::new(3, 3));
    // Dots (0,0), (1,1), (2,2); (3,3) is the end and is not drawn.
    assert_eq!(s.export_to_string(ExportFormat::Plain), "\u{2811}\u{2804}\n");
}

#[test]
fn line_to_itself_is_one_dot() {
    let mut s = screen(4, 4);
    s.line(&Point2D::new(1, 2), &Point2D::new(1, 2));
    assert_eq!(s.export_to_string(ExportFormat::Plain), "\u{2820}\u{2800}\n");
}

#[test]
fn line_is_clipped_to_the_raster() {
    let mut s = screen(4, 4);
    s.line(&Point2D::new(-5, 0), &Point2D::new(2, 0));
    assert_eq!(s.export_to_string(ExportFormat::Plain), "\u{2809}\u{2800}\n");
}

#[test]
fn resize_growing_both_ways_lengthens_rows() {
    // Growing from nothing to 3 wide appends rows 3 long and then extends every row by 3.
    let mut s = screen(3, 4);
    s.write(true, &Point2D::new(2, 0));
    assert_eq!(s.export_to_string(ExportFormat::Plain), "\u{2800}\u{2801}\n");
}

#[test]
fn resize_keeps_dots_that_stay() {
    let mut s = screen(8, 8);
    s.write(true, &Point2D::new(1, 1));
    s.write(true, &Point2D::new(7, 7));
    s.resize(4, 4);
    assert_eq!(s.width, 4);
    assert_eq!(s.height, 4);
    assert_eq!(s.export_to_string(ExportFormat::Plain), "\u{2810}\u{2800}\n");
}

#[test]
fn fit_to_terminal_uses_two_by_four_dots() {
    let mut s = Screen::new();
    s.fit_to_terminal(Some((40, 13)));
    assert_eq!(s.width, 80);
    assert_eq!(s.height, 48);
    s.write(true, &Point2D::new(0, 0));
    s.fit_to_terminal(Some((40, 13)));
    assert_eq!(s.export_to_string(ExportFormat::Plain), "\u{2801}\u{2800}\u{2800}\n\u{2800}\u{2800}\u{2800}\n\u{2800}\u{2800}\u{2800}\n");
}

#[test]
fn fit_to_terminal_defaults_to_80_by_24() {
    let mut s = Screen::new();
    s.fit_to_terminal(None);
    assert_eq!(s.width, 160);
    assert_eq!(s.height, 92);
}

#[test]
fn render_homes_the_cursor() {
    let mut s = screen(2, 4);
    s.write(true, &Point2D::new(0, 0));
    assert_eq!(s.render(), "\u{1b}[H\u{2801}\r\n");
}

#[test]
fn render_switches_color_back() {
    let mut s = screen(2, 8);
    s.write_colored(true, &Point2D::new(0, 0), Color::Magenta);
    assert_eq!(
        s.render(),
        "\u{1b}[H\u{1b}[35m\u{2801}\r\n\u{1b}[39m\u{2800}\r\n"
    );
}

#[test]
fn odd_width_gives_last_dot_to_last_cell() {
    let mut s = screen(3, 4);
    s.resize(3, 8);
    s.resize(5, 8);
    s.resize(3, 8);
    s.write(true, &Point2D::new(2, 0));
    assert_eq!(s.export_to_string(ExportFormat::Plain), "\u{2800}\u{2801}\n\u{2800}\u{2800}\n");
}

#[test]
fn line_from_far_off_the_raster_reaches_it() {
    // A long line whose start lies far outside the raster is drawn where it crosses it.
    let mut s = screen(4, 4);
    s.line(&Point2D::new(-200_000, 0), &Point2D::new(4, 0));
    assert_eq!(s.export_to_string(ExportFormat::Plain), "\u{2809}\u{2809}\n");
}

fn without_escapes(text: &str) -> String {
    let mut out = String::new();
    let mut in_escape = false;
    for c in text.chars() {
        if c == '\u{1b}' {
            in_escape = true;
        } else if in_escape {
            in_escape = c != 'm';
        } else {
            out.push(c);
        }
    }
    out
}

#[test]
fn color_export_without_escapes_is_plain_export() {
    let mut s = screen(12, 12);
    s.write_colored(true, &Point2D::new(1, 1), Color::Red);
    s.write_colored(true, &Point2D::new(5, 2), Color::Green);
    s.write(true, &Point2D::new(6, 2));
    s.write_colored(true, &Point2D::new(3, 9), Color::Cyan);
    let colored = s.export_to_string(ExportFormat::Color);
    assert!(colored.contains('\u{1b}'));
    assert_eq!(without_escapes(&colored), s.export_to_string(ExportFormat::Plain));
}
