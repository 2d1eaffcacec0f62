use termplot::grid::{HPos, PixelState, TextDrawingBackend, VPos, HEIGHT};

fn frame_lines(chars: Vec<char>) -> Vec<String> {
    let text: String = chars.into_iter().collect();
    text.split_terminator('\n').map(|l| l.to_string()).collect()
}

#[test]
fn blank_grid_presents_spaces() {
    let mut g = TextDrawingBackend::new(7);
    let lines = frame_lines(g.present());
    assert_eq!(lines.len(), HEIGHT);
    for l in &lines {
        assert_eq!(l, "       ");
    }
    let again = frame_lines(g.present());
    assert_eq!(again, lines);
}

#[test]
fn present_clears_the_grid() {
    let mut g = TextDrawingBackend::new(3);
    g.draw_text("ab", HPos::Left, VPos::Top, (0, 0));
    let first = frame_lines(g.present());
    assert_eq!(first[0], "ab ");
    let second = frame_lines(g.present());
    assert_eq!(second[0], "   ");
}

#[test]
fn lines_cross_in_either_order() {
    let mut a = TextDrawingBackend::new(5);
    assert!(a.draw_line((0, 2), (5, 2)));
    assert!(a.draw_line((2, 0), (2, 5)));
    let mut b = TextDrawingBackend::new(5);
    assert!(b.draw_line((2, 5), (2, 0)));
    assert!(b.draw_line((5, 2), (0, 2)));
    let fa = frame_lines(a.present());
    let fb = frame_lines(b.present());
    assert_eq!(fa, fb);
    assert_eq!(fa[0], "  |  ");
    assert_eq!(fa[2], "--+--");
    assert_eq!(fa[4], "  |  ");
    assert_eq!(fa[5], "     ");
}

#[test]
fn lines_leave_out_their_far_end() {
    let mut g = TextDrawingBackend::new(4);
    assert!(g.draw_line((1, 0), (3, 0)));
    assert!(!g.draw_line((0, 1), (3, 2)));
    let f = frame_lines(g.present());
    assert_eq!(f[0], " -- ");
    assert_eq!(f[1], "    ");
}

#[test]
fn merge_rules() {
    let mut s = PixelState::HLine;
    s.update(PixelState::VLine);
    assert_eq!(s, PixelState::Cross);
    s.update(PixelState::HLine);
    assert_eq!(s, PixelState::HLine);
    s.update(PixelState::Pixel);
    assert_eq!(s, PixelState::Pixel);
    s.update(PixelState::Text('a'));
    assert_eq!(s, PixelState::Pixel);
    s.update(PixelState::Circle(false));
    assert_eq!(s, PixelState::Circle(false));
    s.update(PixelState::Pixel);
    assert_eq!(s, PixelState::Circle(false));
    let mut t = PixelState::Empty;
    t.update(PixelState::Text('z'));
    assert_eq!(t, PixelState::Text('z'));
    t.update(PixelState::HLine);
    assert_eq!(t, PixelState::HLine);
}

#[test]
fn glyphs() {
    assert_eq!(PixelState::Empty.to_char(), ' ');
    assert_eq!(PixelState::HLine.to_char(), '-');
    assert_eq!(PixelState::VLine.to_char(), '|');
    assert_eq!(PixelState::Cross.to_char(), '+');
    assert_eq!(PixelState::Pixel.to_char(), '.');
    assert_eq!(PixelState::Text('q').to_char(), 'q');
    assert_eq!(PixelState::Circle(true).to_char(), '@');
    assert_eq!(PixelState::Circle(false).to_char(), 'O');
}

#[test]
fn faint_pixels_are_dropped() {
    let mut g = TextDrawingBackend::new(3);
    g.draw_pixel(0, 0, 300);
    g.draw_pixel(1, 0, 301);
    g.draw_pixel(2, 0, 1000);
    let f = frame_lines(g.present());
    assert_eq!(f[0], " ..");
}

#[test]
fn text_anchors() {
    let mut g = TextDrawingBackend::new(8);
    g.draw_text("abc", HPos::Right, VPos::Top, (8, 0));
    g.draw_text("xy", HPos::Center, VPos::Center, (4, 1));
    g.draw_text("q", HPos::Left, VPos::Bottom, (0, 3));
    g.draw_text("zz", HPos::Right, VPos::Bottom, (1, 0));
    let f = frame_lines(g.present());
    assert_eq!(f[0], "zz   abc");
    assert_eq!(f[1], "   xy   ");
    assert_eq!(f[2], "q       ");
}

#[test]
fn text_runs_into_the_next_row() {
    let mut g = TextDrawingBackend::new(4);
    g.draw_text("hello", HPos::Left, VPos::Top, (2, 0));
    let f = frame_lines(g.present());
    assert_eq!(f[0], "  he");
    assert_eq!(f[1], "llo ");
}

#[test]
fn size_and_text_size() {
    let g = TextDrawingBackend::new(100);
    assert_eq!(g.get_size(), (100, 30));
    assert_eq!(TextDrawingBackend::estimate_text_size("abcd"), (4, 1));
}
