use std::str::FromStr;
use termplot::view::PlotterType;

#[test]
fn renderer_names() {
    assert_eq!(PlotterType::parse("text"), Some(PlotterType::Text));
    assert_eq!(PlotterType::parse("tui"), Some(PlotterType::Terminal));
    assert_eq!(PlotterType::parse("TUI"), None);
    assert_eq!(PlotterType::parse("tuix"), None);
    assert_eq!(PlotterType::parse(""), None);
    assert_eq!(PlotterType::from_str("tui"), Ok(PlotterType::Terminal));
    assert_eq!(PlotterType::from_str("chart"), Err("Invalid plotter type"));
    assert_eq!(PlotterType::default(), PlotterType::Text);
}
