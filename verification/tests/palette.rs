use forge::tui::{execute_palette_command, Palette, PaletteCommand, PaletteEffect};

#[test]
fn palette_parses_refresh() {
    assert_eq!(Palette::parse_command("refresh"), PaletteCommand::Refresh);
    assert_eq!(Palette::parse_command(" r "), PaletteCommand::Refresh);
}

#[test]
fn unknown_palette_command_sets_error() {
    let effect = execute_palette_command(PaletteCommand::Unknown("wat".to_string()));
    match effect {
        PaletteEffect::Error(message) => assert_eq!(message, "unknown command: wat"),
        other => panic!("expected an error, got {other:?}"),
    }
}

#[test]
fn palette_find_searches_for_the_query() {
    match execute_palette_command(Palette::parse_command("find  deploy rules ")) {
        PaletteEffect::Search(query) => assert_eq!(query, "deploy rules"),
        other => panic!("expected a search, got {other:?}"),
    }
    assert!(matches!(execute_palette_command(PaletteCommand::Quit), PaletteEffect::Quit));
}
