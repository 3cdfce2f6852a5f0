use gispect::config::{bool_label, Config, ConfigField, ConfigModal, ModeKind, FIELD_COUNT};
use gispect::types::DiffMode;

#[test]
fn default_values_are_exact() {
    let c = Config::default();
    assert_eq!(c.default_mode, ModeKind::BranchToBase);
    assert_eq!(c.compact, false);
    assert_eq!(c.syntax, true);
    assert_eq!(c.show_files, true);
    assert_eq!(c.tree_view, false);
    assert_eq!(c.wide_files, false);
    assert_eq!(c.show_old, true);
    assert_eq!(c.show_new, true);
}

#[test]
fn mode_kind_cycle_wraps_forward() {
    assert_eq!(ModeKind::BranchToBase.cycle(true), ModeKind::WorkingTree);
    assert_eq!(ModeKind::WorkingTree.cycle(true), ModeKind::Staged);
    assert_eq!(ModeKind::Staged.cycle(true), ModeKind::Unstaged);
    assert_eq!(ModeKind::Unstaged.cycle(true), ModeKind::BranchToBase);
}

#[test]
fn mode_kind_cycle_wraps_backward() {
    assert_eq!(ModeKind::BranchToBase.cycle(false), ModeKind::Unstaged);
    assert_eq!(ModeKind::Unstaged.cycle(false), ModeKind::Staged);
    assert_eq!(ModeKind::Staged.cycle(false), ModeKind::WorkingTree);
    assert_eq!(ModeKind::WorkingTree.cycle(false), ModeKind::BranchToBase);
}

#[test]
fn diff_mode_roundtrip_all_variants() {
    for kind in [
        ModeKind::BranchToBase,
        ModeKind::WorkingTree,
        ModeKind::Staged,
        ModeKind::Unstaged,
    ] {
        let dm = kind.to_diff_mode("main");
        assert_eq!(ModeKind::from_diff_mode(&dm), kind);
    }
    match ModeKind::BranchToBase.to_diff_mode("develop") {
        DiffMode::BranchToBase { base } => assert_eq!(base, "develop"),
        other => panic!("expected BranchToBase, got {other:?}"),
    }
}

#[test]
fn toggle_flips_bool_and_cycles_mode() {
    let mut c = Config::default();
    c.toggle(ConfigField::Compact, true);
    assert_eq!(c.compact, true);
    c.toggle(ConfigField::Compact, true);
    assert_eq!(c.compact, false);

    c.toggle(ConfigField::DefaultMode, true);
    assert_eq!(c.default_mode, ModeKind::WorkingTree);
    c.toggle(ConfigField::DefaultMode, false);
    assert_eq!(c.default_mode, ModeKind::BranchToBase);
}

#[test]
fn value_label_formats() {
    let c = Config::default();
    assert_eq!(c.value_label(ConfigField::Syntax), "on");
    assert_eq!(c.value_label(ConfigField::Compact), "off");
    assert_eq!(c.value_label(ConfigField::DefaultMode), "branch vs base");
}

#[test]
fn config_modal_navigation_wraps() {
    let mut m = ConfigModal::new(Config::default());
    assert_eq!(m.selected, 0);
    assert_eq!(m.field(), ConfigField::DefaultMode);
    m.prev();
    assert_eq!(m.selected, ConfigField::ALL.len() - 1);
    assert_eq!(m.field(), ConfigField::ShowNew);
    m.next();
    assert_eq!(m.selected, 0);
}

#[test]
fn toggling_twice_in_opposite_directions_restores_every_field() {
    for field in ConfigField::ALL {
        for forward in [true, false] {
            let mut c = Config::default();
            c.toggle(field, forward);
            assert_ne!(c, Config::default());
            c.toggle(field, !forward);
            assert_eq!(c, Config::default());
        }
    }
}

#[test]
fn toggling_one_field_leaves_the_other_labels() {
    let mut c = Config::default();
    c.toggle(ConfigField::TreeView, true);
    assert_eq!(c.value_label(ConfigField::TreeView), "on");
    assert_eq!(c.value_label(ConfigField::WideFiles), "off");
    assert_eq!(c.value_label(ConfigField::ShowOld), "on");
    assert_eq!(c.value_label(ConfigField::DefaultMode), "branch vs base");
}

#[test]
fn four_cycles_go_all_the_way_round() {
    for kind in [
        ModeKind::BranchToBase,
        ModeKind::WorkingTree,
        ModeKind::Staged,
        ModeKind::Unstaged,
    ] {
        assert_eq!(kind.cycle(true).cycle(true).cycle(true).cycle(true), kind);
        assert_eq!(kind.cycle(true).cycle(false), kind);
    }
}

#[test]
fn field_rows_and_labels() {
    assert_eq!(FIELD_COUNT, ConfigField::ALL.len());
    for (i, f) in ConfigField::ALL.iter().enumerate() {
        assert_eq!(ConfigField::at(i), *f);
    }
    assert_eq!(ConfigField::Syntax.label(), "syntax highlighting");
    assert_eq!(ConfigField::ShowNew.label(), "new pane");
    assert_eq!(ModeKind::WorkingTree.label(), "working tree vs HEAD");
    assert_eq!(bool_label(true), "on");
    assert_eq!(bool_label(false), "off");
}

#[test]
fn modal_next_and_prev_cycle_all_rows() {
    let mut m = ConfigModal::new(Config::default());
    for i in 1..=FIELD_COUNT {
        m.next();
        assert_eq!(m.selected, i % FIELD_COUNT);
    }
    assert_eq!(m.selected, 0);
    m.next();
    m.next();
    m.prev();
    assert_eq!(m.selected, 1);
    assert_eq!(m.field(), ConfigField::Compact);
    assert_eq!(m.draft, Config::default());
}
