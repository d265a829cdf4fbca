use walldots::browser::{is_image, Action, Browser, DirItem, Step};
use walldots::keys::Key;

fn item(dir: &str, name: &str, is_dir: bool) -> DirItem {
    DirItem { name: name.to_string(), path: format!("{dir}/{name}"), is_dir }
}

/// A directory holding a sub-directory, an image and a text file.
fn fixture(dir: &str) -> Browser {
    let listing = vec![
        item(dir, "note.txt", false),
        item(dir, "photo.png", false),
        item(dir, "sub", true),
    ];
    Browser::new(dir.to_string(), Some("/tmp".to_string()), Some(listing))
}

fn labels(b: &Browser) -> Vec<String> {
    b.entries.iter().map(|e| e.label.clone()).collect()
}

#[test]
fn lists_dirs_and_images_only() {
    let b = fixture("/tmp/walldots_browser_list");
    let labels = labels(&b);
    assert!(labels.contains(&"../".to_string()));
    assert!(labels.contains(&"sub/".to_string()));
    assert!(labels.contains(&"photo.png".to_string()));
    assert!(!labels.iter().any(|l| l.contains("note.txt")));
}

#[test]
fn entering_dir_and_selecting_image() {
    let dir = "/tmp/walldots_browser_nav";
    let mut b = fixture(dir);

    let idx = b.entries.iter().position(|e| e.label == "photo.png").unwrap();
    b.selected = idx;
    match b.handle_key(Key::Enter) {
        Step::Done(Action::Open(p)) => assert_eq!(p, format!("{dir}/photo.png")),
        _ => panic!("devrait renvoyer Open"),
    }

    let sidx = b.entries.iter().position(|e| e.label == "sub/").unwrap();
    b.selected = sidx;
    match b.handle_key(Key::Enter) {
        Step::Load(p) => assert_eq!(p, format!("{dir}/sub")),
        _ => panic!("devrait changer de dossier"),
    }
    assert_eq!(b.cwd, format!("{dir}/sub"));
}

#[test]
fn search_filters_entries() {
    let dir = "/tmp/walldots_browser_search";
    let listing = vec![
        item(dir, "banana.png", false),
        item(dir, "note.txt", false),
        item(dir, "photo.png", false),
        item(dir, "sub", true),
    ];
    let mut b = Browser::new(dir.to_string(), Some("/tmp".to_string()), Some(listing));

    assert!(matches!(b.handle_key(Key::Char('/')), Step::Done(Action::Nothing)));
    assert!(b.searching);
    for c in "phot".chars() {
        b.handle_key(Key::Char(c));
    }
    let labels: Vec<String> = b.filtered.iter().map(|&i| b.entries[i].label.clone()).collect();
    assert!(labels.iter().any(|l| l == "photo.png"), "photo doit rester");
    assert!(!labels.iter().any(|l| l == "banana.png"), "banana doit être filtré");

    b.handle_key(Key::Esc);
    assert!(!b.searching && b.query.is_empty());
    assert!(b.filtered.len() >= 2, "tout revient après effacement");
}

#[test]
fn listing_order_and_hidden_files() {
    let dir = "/d";
    let listing = vec![
        item(dir, "b.JPG", false),
        item(dir, ".hidden.png", false),
        item(dir, "Zeta", true),
        item(dir, "a.png", false),
        item(dir, "alpha", true),
        item(dir, ".git", true),
        item(dir, "noext", false),
    ];
    let b = Browser::new(dir.to_string(), None, Some(listing));
    assert_eq!(labels(&b), vec!["alpha/", "Zeta/", "a.png", "b.JPG"]);
    assert!(b.entries[0].is_dir && !b.entries[0].parent);
    assert_eq!(b.filtered, vec![0, 1, 2, 3]);
}

#[test]
fn unreadable_directory_keeps_parent_only() {
    let b = Browser::new("/locked".to_string(), Some("/".to_string()), None);
    assert_eq!(labels(&b), vec!["../"]);
    assert_eq!(b.status, "dossier illisible : /locked");
}

#[test]
fn selection_wraps_and_parent_goes_up() {
    let mut b = fixture("/tmp/w");
    let n = b.filtered.len();
    assert_eq!(b.selected, 0);
    b.handle_key(Key::Up);
    assert_eq!(b.selected, n - 1);
    b.handle_key(Key::Down);
    assert_eq!(b.selected, 0);
    match b.handle_key(Key::Left) {
        Step::Load(p) => assert_eq!(p, "/tmp"),
        _ => panic!("devrait remonter"),
    }
    assert!(matches!(b.handle_key(Key::Char('q')), Step::Done(Action::Quit)));
    assert!(matches!(b.handle_key(Key::Esc), Step::Done(Action::Back)));
}

#[test]
fn search_typing_and_backspace() {
    let mut b = fixture("/tmp/w");
    b.handle_key(Key::Char('/'));
    b.handle_key(Key::Char('Q'));
    assert_eq!(b.query, "Q");
    assert!(b.filtered.is_empty());
    assert!(matches!(b.handle_key(Key::Enter), Step::Done(Action::Nothing)));
    b.handle_key(Key::Backspace);
    assert_eq!(b.query, "");
    assert_eq!(b.filtered.len(), b.entries.len());
}

#[test]
fn image_extensions() {
    assert!(is_image("photo.png"));
    assert!(is_image("PHOTO.JpEg"));
    assert!(is_image("a.b.tiff"));
    assert!(!is_image(".png"));
    assert!(!is_image("png"));
    assert!(!is_image("photo.png.txt"));
    assert!(!is_image(".."));
    assert!(!is_image("x."));
}

#[test]
fn visible_window_follows_selection() {
    let dir = "/d";
    let listing: Vec<DirItem> = (0..10).map(|i| item(dir, &format!("f{i}.png"), false)).collect();
    let mut b = Browser::new(dir.to_string(), None, Some(listing));
    assert_eq!(b.visible_range(4), (0, 4));
    b.selected = 5;
    assert_eq!(b.visible_range(4), (3, 7));
    b.selected = 9;
    assert_eq!(b.visible_range(4), (6, 10));
    assert_eq!(b.visible_range(20), (0, 10));
}

#[test]
fn search_ignores_case() {
    let dir = "/d";
    let listing = vec![item(dir, "Photo.PNG", false), item(dir, "other.png", false)];
    let mut b = Browser::new(dir.to_string(), None, Some(listing));
    b.handle_key(Key::Char('/'));
    for c in "PHOT".chars() {
        b.handle_key(Key::Char(c));
    }
    let labels: Vec<String> = b.filtered.iter().map(|&i| b.entries[i].label.clone()).collect();
    assert_eq!(labels, vec!["Photo.PNG"]);
}
