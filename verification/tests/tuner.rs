use walldots::config::{BwMode, DotShape, Rgb};
use walldots::keys::Key;
use walldots::tuner::{bg_presets, label, Command, FloatParam, Tuner, PARAM_COUNT};

fn tuner() -> Tuner {
    Tuner::new(20, BwMode::Color, false, DotShape::Circle, Rgb { r: 0, g: 0, b: 0 }, true, true)
}

#[test]
fn format_cycles_through_three_states() {
    let mut app = tuner();
    app.selected = 10;
    let seen: Vec<(bool, bool)> = (0..3)
        .map(|_| {
            let st = (app.png, app.svg);
            app.adjust(1);
            st
        })
        .collect();
    assert!(seen.contains(&(true, true)));
    assert!(seen.contains(&(true, false)));
    assert!(seen.contains(&(false, true)));
    assert!(!seen.contains(&(false, false)));
    assert_eq!((app.png, app.svg), seen[0]);
}

#[test]
fn typing_sets_value_directly() {
    let mut app = tuner();
    // Grid: type 250.
    app.selected = 0;
    app.handle_key(Key::Enter);
    assert!(app.editing);
    for _ in 0..8 {
        app.handle_key(Key::Backspace);
    }
    for c in "250".chars() {
        app.handle_key(Key::Char(c));
    }
    app.handle_key(Key::Enter);
    assert!(!app.editing);
    assert_eq!(app.cols, 250);

    // Background: type a hex colour.
    app.selected = 9;
    app.handle_key(Key::Enter);
    for _ in 0..8 {
        app.handle_key(Key::Backspace);
    }
    for c in "#123456".chars() {
        app.handle_key(Key::Char(c));
    }
    app.handle_key(Key::Enter);
    assert_eq!(app.background, Rgb { r: 0x12, g: 0x34, b: 0x56 });

    // An invalid value is ignored: the old one stays.
    app.selected = 0;
    app.handle_key(Key::Enter);
    for _ in 0..8 {
        app.handle_key(Key::Backspace);
    }
    for c in "abc".chars() {
        app.handle_key(Key::Char(c));
    }
    app.handle_key(Key::Enter);
    assert_eq!(app.cols, 250, "valeur invalide -> inchangée");
    assert_eq!(app.status, "valeur invalide");
}

#[test]
fn adjust_and_cycle_stay_in_bounds() {
    let mut app = tuner();
    // Gamma is fractional: every step is handed to the application.
    app.selected = 6;
    for _ in 0..100 {
        match app.adjust(-1) {
            Command::StepFloat(FloatParam::Gamma, -1) => {}
            _ => panic!("le gamma est réglé par l'application"),
        }
    }
    // Cycling the black & white mode comes back after three steps.
    app.selected = 2;
    let start = app.bw;
    app.adjust(1);
    app.adjust(1);
    app.adjust(1);
    assert_eq!(app.bw, start);
}

#[test]
fn grid_steps_and_clamps() {
    let mut app = tuner();
    app.selected = 0;
    app.adjust(1);
    assert_eq!(app.cols, 24);
    for _ in 0..10 {
        app.adjust(-1);
    }
    assert_eq!(app.cols, 2);
    app.cols = 599;
    app.adjust(1);
    assert_eq!(app.cols, 600);
}

#[test]
fn typed_grid_is_clamped() {
    let mut app = tuner();
    app.handle_key(Key::Enter);
    assert_eq!(app.edit_buf, "20");
    for _ in 0..2 {
        app.handle_key(Key::Backspace);
    }
    for c in " +9000 ".chars() {
        app.handle_key(Key::Char(c));
    }
    app.handle_key(Key::Enter);
    assert_eq!(app.cols, 600);
    app.handle_key(Key::Enter);
    app.edit_buf = "-99999999999999999999".to_string();
    app.handle_key(Key::Enter);
    assert_eq!(app.cols, 600, "dépassement -> inchangé");
    app.handle_key(Key::Enter);
    app.edit_buf = "-7".to_string();
    app.handle_key(Key::Enter);
    assert_eq!(app.cols, 2);
}

#[test]
fn selection_wraps_around_settings() {
    let mut app = tuner();
    app.handle_key(Key::Up);
    assert_eq!(app.selected, PARAM_COUNT - 1);
    app.handle_key(Key::Down);
    assert_eq!(app.selected, 0);
    assert!(matches!(app.handle_key(Key::Char('q')), Command::Quit));
    assert!(matches!(app.handle_key(Key::Char('o')), Command::OpenBrowser));
    assert!(matches!(app.handle_key(Key::Char('s')), Command::Save));
    app.dirty = false;
    app.handle_key(Key::Char('z'));
    assert!(app.zoom && app.dirty);
}

#[test]
fn fractional_settings_are_handed_out() {
    let mut app = tuner();
    app.selected = 1;
    assert!(matches!(app.handle_key(Key::Right), Command::StepFloat(FloatParam::Scale, 1)));
    assert!(matches!(app.handle_key(Key::Enter), Command::BeginFloatEdit(FloatParam::Scale)));
    app.begin_edit("1.00".to_string());
    app.handle_key(Key::Char('5'));
    match app.handle_key(Key::Enter) {
        Command::CommitFloatEdit(FloatParam::Scale, t) => assert_eq!(t, "1.005"),
        _ => panic!("la saisie revient à l'application"),
    }
    assert!(!app.editing);
    app.finish_edit(false);
    assert_eq!(app.status, "valeur invalide");
}

#[test]
fn background_options_and_cycle() {
    let app = tuner();
    assert_eq!(app.bg_options.len(), 6);
    assert_eq!(app.bg_index, 0);
    let custom = Tuner::new(20, BwMode::Color, false, DotShape::Circle, Rgb { r: 1, g: 2, b: 3 }, true, true);
    assert_eq!(custom.bg_options.len(), 7);
    assert_eq!(custom.bg_options[0].0, "Perso");
    assert_eq!(custom.value(9).unwrap(), "Perso");

    let mut app = tuner();
    app.selected = 9;
    app.adjust(-1);
    assert_eq!(app.background, Rgb { r: 245, g: 240, b: 230 });
    assert_eq!(app.value(9).unwrap(), "Crème");
    app.adjust(1);
    assert_eq!(app.background, Rgb { r: 0, g: 0, b: 0 });
}

#[test]
fn shape_cycle_and_values() {
    let mut app = tuner();
    app.selected = 8;
    app.adjust(-1);
    assert_eq!(app.shape, DotShape::Hexagon);
    assert_eq!(app.value(8).unwrap(), "hexagone");
    assert_eq!(app.value(0).unwrap(), "20");
    assert_eq!(app.value(2).unwrap(), "non (couleur)");
    assert_eq!(app.value(7).unwrap(), "non");
    assert_eq!(app.value(10).unwrap(), "png + svg");
    assert!(app.value(1).is_none());
    assert_eq!(app.value(42).unwrap(), "");
    assert_eq!(label(0), "Grille (points/largeur)");
    assert_eq!(label(10), "Format de sortie");
}

#[test]
fn presets_list() {
    let p = bg_presets();
    assert_eq!(p.len(), 6);
    assert_eq!(p[0], ("Noir", Rgb { r: 0, g: 0, b: 0 }));
    assert_eq!(p[5], ("Crème", Rgb { r: 245, g: 240, b: 230 }));
}

#[test]
fn editing_shows_cursor_and_escape_abandons() {
    let mut app = tuner();
    app.selected = 9;
    app.handle_key(Key::Enter);
    assert_eq!(app.value(9).unwrap(), "#000000▏");
    app.handle_key(Key::Char('f'));
    app.handle_key(Key::Esc);
    assert!(!app.editing && app.edit_buf.is_empty());
    assert_eq!(app.background, Rgb { r: 0, g: 0, b: 0 });
}

#[test]
fn multibyte_background_text_is_ignored() {
    let mut app = tuner();
    app.selected = 9;
    app.handle_key(Key::Enter);
    for _ in 0..8 {
        app.handle_key(Key::Backspace);
    }
    app.handle_key(Key::Char('€'));
    app.handle_key(Key::Enter);
    assert!(!app.editing);
    assert_eq!(app.background, Rgb { r: 0, g: 0, b: 0 });
    assert_eq!(app.status, "valeur invalide");
}
