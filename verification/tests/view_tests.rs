use entroptui::view::ViewMode;

#[test]
fn viewmode_next_cycles_correctly() {
    assert_eq!(ViewMode::Chart.next(), ViewMode::Hilbert);
    assert_eq!(ViewMode::Hilbert.next(), ViewMode::Hex);
    assert_eq!(ViewMode::Hex.next(), ViewMode::Chart);
}

#[test]
fn viewmode_label_returns_expected() {
    assert_eq!(ViewMode::Chart.label(), "Chart");
    assert_eq!(ViewMode::Hilbert.label(), "Hilbert");
    assert_eq!(ViewMode::Hex.label(), "Hex");
}

#[test]
fn view_cycle_returns_after_three_steps() {
    for v in [ViewMode::Chart, ViewMode::Hilbert, ViewMode::Hex] {
        assert_eq!(v.next().next().next(), v);
        assert_ne!(v.next(), v);
    }
}
