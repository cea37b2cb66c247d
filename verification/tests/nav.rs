use forge::tui::{
    detail_key, mouse_click, mouse_scroll, ColumnFocus, WheelEffect, DetailAction, DetailKey, DetailTab, MouseRegions, Region,
    Section,
};
use forge::dashboard::{VariantCol, VariantCoverage, VariantCoverageCell, VariantCoverageRow};
use forge::nav::{
    detail_scroll_step, hunk_position, jump_hunk, move_code_cursor, move_list_selection,
    list_viewport, select_first_row, select_last_row, selected_list_index, ListRow, ListTarget,
};

fn rows() -> Vec<ListRow> {
    vec![
        ListRow::header("Skills".to_string()),
        ListRow::item("a".to_string(), String::new(), ListTarget::Module("a".to_string()), "source"),
        ListRow::item("note".to_string(), String::new(), ListTarget::NoTarget, "source"),
        ListRow::item("b".to_string(), String::new(), ListTarget::Module("b".to_string()), "source"),
        ListRow::header("Rules".to_string()),
    ]
}

#[test]
fn selection_skips_headers_and_rows_without_target() {
    let rows = rows();
    assert_eq!(selected_list_index(&rows, 0), 1);
    assert_eq!(selected_list_index(&rows, 3), 3);
    assert_eq!(move_list_selection(&rows, 1, 1), 3);
    assert_eq!(move_list_selection(&rows, 3, -1), 1);
    assert_eq!(move_list_selection(&rows, 1, -1), 0);
    assert_eq!(move_list_selection(&rows, 3, 1), 4);
    assert_eq!(move_list_selection(&[], 5, 1), 0);
    assert_eq!(select_first_row(&rows), 1);
    assert_eq!(select_last_row(&rows), 3);
    assert!(!rows[0].is_selectable());
}

#[test]
fn detail_scroll_saturates() {
    assert_eq!(detail_scroll_step(3, -5), 0);
    assert_eq!(detail_scroll_step(65530, 10), 65535);
    assert_eq!(detail_scroll_step(7, 2), 9);
    assert_eq!(detail_scroll_step(7, 70000), 7);
}

#[test]
fn code_cursor_drags_the_viewport() {
    assert_eq!(move_code_cursor(100, 10, 1, 0, 20), (11, 0));
    assert_eq!(move_code_cursor(100, 19, 1, 0, 20), (20, 1));
    assert_eq!(move_code_cursor(100, 5, -3, 4, 20), (2, 2));
    assert_eq!(move_code_cursor(100, 5, isize::MIN, 4, 20), (0, 0));
    assert_eq!(move_code_cursor(100, 98, 10, 80, 20), (99, 80));
    assert_eq!(move_code_cursor(0, 0, 5, 0, 0), (0, 0));
}

#[test]
fn hunks_are_jumped_and_counted() {
    let hunks = [4usize, 10, 25];
    assert_eq!(jump_hunk(&hunks, 4, true), 10);
    assert_eq!(jump_hunk(&hunks, 25, true), 25);
    assert_eq!(jump_hunk(&hunks, 12, false), 10);
    assert_eq!(jump_hunk(&hunks, 2, false), 2);
    assert_eq!(hunk_position(&hunks, 0), Some((1, 3)));
    assert_eq!(hunk_position(&hunks, 11), Some((2, 3)));
    assert_eq!(hunk_position(&[], 11), None);
}

#[test]
fn overview_rows_name_the_current_mode() {
    let rows = forge::nav::overview_rows(true);
    assert_eq!(rows[0].label, "Summary");
    assert_eq!(rows[1].label, "Matrix view");
    assert_eq!(forge::nav::overview_rows(false)[1].label, "Nested view");
}

#[test]
fn variant_rows_list_each_override() {
    let col = |q: &str| VariantCol { qualifier: q.to_string(), provider: q.to_string(), label: q.to_string() };
    let cell = |mode: &str| VariantCoverageCell { mode: mode.to_string(), link: String::new() };
    let coverage = VariantCoverage {
        cols: vec![col("alpha"), col("beta")],
        rows: vec![VariantCoverageRow {
            module: "core".to_string(),
            kind: "rules".to_string(),
            name: "R".to_string(),
            cells: vec![cell(""), cell("append")],
        }],
        col_totals: vec![0, 1],
    };
    let rows = forge::nav::variant_rows(&coverage);
    assert_eq!(rows.len(), 2);
    assert_eq!(rows[0].label, "2 qualifiers");
    assert_eq!(rows[1].detail, "rules · beta · append");
}

#[test]
fn variant_from_defaults_mode_to_replace() {
    let harness = forge::sidecar::variant_from("alpha", "", "rules/alpha/R.md".to_string(), "body");
    assert_eq!(harness.qualifier, "alpha");
    assert_eq!(harness.mode, "replace");
    let model = forge::sidecar::variant_from(
        "alpha",
        "large",
        "rules/alpha/large/R.md".to_string(),
        "---\nmode: append\n---\nbody",
    );
    assert_eq!(model.qualifier, "alpha/large");
    assert_eq!(model.mode, "append");
}

#[test]
fn clicks_focus_and_select() {
    let regions = MouseRegions {
        sections: Region { x: 0, y: 0, width: 20, height: 16 },
        list: Region { x: 20, y: 0, width: 30, height: 10 },
        tabs: Region { x: 50, y: 0, width: 60, height: 1 },
        detail: Region { x: 50, y: 1, width: 60, height: 20 },
    };
    let rows = rows();
    let on_tab = mouse_click(&regions, 51, 0, false, 0, &rows, 1);
    assert_eq!(on_tab.focus, Some(ColumnFocus::Detail));
    assert_eq!(on_tab.tab, Some(DetailTab::Preview));
    let on_section = mouse_click(&regions, 5, 3, false, 0, &rows, 1);
    assert_eq!(on_section.section, Some(Section::Agents));
    let on_row = mouse_click(&regions, 25, 4, false, 0, &rows, 1);
    assert_eq!(on_row.select, Some(3));
    assert!(!on_row.activate);
    let again = mouse_click(&regions, 25, 4, false, 0, &rows, 3);
    assert!(again.activate);
    let on_header = mouse_click(&regions, 25, 1, false, 0, &rows, 1);
    assert_eq!(on_header.focus, Some(ColumnFocus::List));
    assert_eq!(on_header.select, None);
    assert!(mouse_click(&regions, 25, 4, true, 0, &rows, 1).focus.is_none());
}

#[test]
fn detail_keys_map_to_actions() {
    assert!(matches!(detail_key(DetailKey::PageDown, DetailTab::Preview, 21), DetailAction::Step(20)));
    assert!(matches!(detail_key(DetailKey::Control('u'), DetailTab::Preview, 21), DetailAction::Step(-10)));
    assert!(matches!(detail_key(DetailKey::Char(']'), DetailTab::Diff, 5), DetailAction::JumpHunk(true)));
    assert!(matches!(detail_key(DetailKey::Char(']'), DetailTab::Code, 5), DetailAction::Nothing));
    assert!(matches!(
        detail_key(DetailKey::Char('m'), DetailTab::Preview, 5),
        DetailAction::Comment { switch_to_code: true }
    ));
    assert!(matches!(detail_key(DetailKey::Char('d'), DetailTab::Code, 5), DetailAction::SetTab(DetailTab::Diff)));
    assert!(matches!(detail_key(DetailKey::PageUp, DetailTab::Code, 0), DetailAction::Step(-1)));
}

#[test]
fn wheel_scrolls_the_pane_under_the_pointer() {
    let regions = MouseRegions {
        sections: Region { x: 0, y: 0, width: 20, height: 16 },
        list: Region { x: 20, y: 0, width: 30, height: 10 },
        tabs: Region { x: 50, y: 0, width: 60, height: 1 },
        detail: Region { x: 50, y: 1, width: 60, height: 20 },
    };
    assert!(matches!(mouse_scroll(&regions, 60, 5, true, false, false, 10, 0), WheelEffect::Detail(13)));
    assert!(matches!(mouse_scroll(&regions, 60, 5, false, false, false, 1, 0), WheelEffect::Detail(0)));
    assert!(matches!(mouse_scroll(&regions, 25, 5, true, false, false, 0, 7), WheelEffect::List(10)));
    assert!(matches!(mouse_scroll(&regions, 5, 5, true, false, false, 0, 7), WheelEffect::Nothing));
    assert!(matches!(mouse_scroll(&regions, 5, 5, true, false, true, 0, 7), WheelEffect::Nothing));
    assert!(matches!(mouse_scroll(&regions, 5, 5, false, true, false, 0, 7), WheelEffect::Preview { down: false }));
}

#[test]
fn artifact_row_marks_integrity_warnings() {
    let mut artifact = forge::view::ArtifactView {
        name: "Dev".to_string(),
        kind: "agents".to_string(),
        ..Default::default()
    };
    let row = forge::nav::artifact_row(&artifact, "core");
    assert_eq!(row.label, "Dev");
    assert_eq!(row.detail, "core");
    assert!(row.is_selectable());
    artifact.broken_refs.push("gone.md".to_string());
    assert_eq!(forge::nav::artifact_row(&artifact, "core").label, "Dev ⚠");
}

#[test]
fn list_viewport_follows_a_moved_selection() {
    // Selection moved below the viewport: scroll just enough to show it.
    assert_eq!(list_viewport(0, 0, 12, 5, 20), (8, 12));
    // Selection moved above the viewport: scroll up to it.
    assert_eq!(list_viewport(8, 12, 3, 5, 20), (3, 3));
    // Selection moved within the viewport: no scroll.
    assert_eq!(list_viewport(3, 3, 5, 5, 20), (3, 5));
}

#[test]
fn list_viewport_leaves_wheel_scrolling_alone_but_clamps() {
    // Same selection: the wheel's offset stays, even with the selection off screen.
    assert_eq!(list_viewport(10, 2, 2, 5, 20), (10, 2));
    // The offset never runs past the last full page.
    assert_eq!(list_viewport(18, 2, 2, 5, 20), (15, 2));
    // Fewer rows than the viewport: offset zero.
    assert_eq!(list_viewport(4, 1, 1, 10, 3), (0, 1));
}
