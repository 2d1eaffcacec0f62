use termplot::bar::{calculate_bar_width, PlotterOpt, Range, TextPlotter};
use termplot::decimal::push_decimal;

fn text_of(v: i64) -> String {
    let mut out = Vec::new();
    push_decimal(&mut out, v);
    String::from_utf8(out).unwrap()
}

#[test]
fn calculate_bar_width_test() {
    assert_eq!(calculate_bar_width(10_000, 0, 100_000, 50), 5);
    assert_eq!(calculate_bar_width(50_000, 30_000, 130_000, 100), 20);
    assert_eq!(calculate_bar_width(10_000, 30_000, 100_000, 50), 0);
}

#[test]
fn text_plotter_test() {
    let range = Range::new(0, 10_000);
    let opt = PlotterOpt { width: 10, range };
    let mut tp = TextPlotter::new(opt);
    tp.update(5_000);
    tp.update(2_000);
    assert_eq!(tp.output(), &b"=====..... 5\n==........ 2\n".to_vec());
}

#[test]
fn bar_width_stays_within_capacity() {
    for x in 0..=100 {
        let w = calculate_bar_width(x * 1_000, 0, 100_000, 37);
        assert!(w <= 37);
    }
    assert_eq!(calculate_bar_width(100_000, 0, 100_000, 37), 37);
    assert_eq!(calculate_bar_width(0, 0, 100_000, 37), 0);
    assert_eq!(calculate_bar_width(-1, 0, 100_000, 37), 0);
    assert_eq!(calculate_bar_width(i64::MIN, i64::MIN + 1, i64::MAX, usize::MAX), 0);
}

#[test]
fn bar_width_floors_the_exact_ratio() {
    assert_eq!(calculate_bar_width(1_000, 0, 3_000, 10), 3);
    assert_eq!(calculate_bar_width(2_000, 0, 3_000, 10), 6);
    assert_eq!(calculate_bar_width(-500, -1_000, 1_000, 8), 2);
}

#[test]
fn bar_width_above_the_scale_exceeds_capacity() {
    assert_eq!(calculate_bar_width(12_000, 0, 10_000, 10), 12);
    assert_eq!(calculate_bar_width(i64::MAX, i64::MIN, i64::MIN + 1, usize::MAX), usize::MAX);
}

#[test]
fn out_of_range_values_show_edge_markers() {
    let opt = PlotterOpt { width: 10, range: Range::new(0, 10_000) };
    let mut tp = TextPlotter::new(opt);
    tp.update(5_000);
    tp.update(2_000);
    tp.update(-2_000);
    tp.update(12_000);
    let text = String::from_utf8(tp.take_output()).unwrap();
    assert_eq!(
        text,
        "=====..... 5\n==........ 2\nX......... -2\n=========X 12\n"
    );
    assert!(tp.output().is_empty());
}

#[test]
fn values_at_the_edges_are_in_range() {
    let opt = PlotterOpt { width: 4, range: Range::new(-1_000, 1_000) };
    let tp = TextPlotter::new(opt);
    assert_eq!(tp.render(-1_000), b".... -1".to_vec());
    assert_eq!(tp.render(1_000), b"==== 1".to_vec());
    assert_eq!(tp.render(0), b"==.. 0".to_vec());
}

#[test]
fn zero_width_bar_keeps_the_label() {
    let opt = PlotterOpt { width: 0, range: Range::new(0, 10_000) };
    let tp = TextPlotter::new(opt);
    assert_eq!(tp.render(-3_000), b" -3".to_vec());
    assert_eq!(tp.render(30_000), b" 30".to_vec());
    assert_eq!(tp.render(3_000), b" 3".to_vec());
}

#[test]
fn decimal_text_is_shortest() {
    assert_eq!(text_of(5_000), "5");
    assert_eq!(text_of(0), "0");
    assert_eq!(text_of(-2_500), "-2.5");
    assert_eq!(text_of(1), "0.001");
    assert_eq!(text_of(12_340), "12.34");
    assert_eq!(text_of(-999), "-0.999");
    assert_eq!(text_of(100_000), "100");
    assert_eq!(text_of(i64::MAX), "9223372036854775.807");
    assert_eq!(text_of(i64::MIN), "-9223372036854775.808");
}
