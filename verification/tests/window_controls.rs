use tangleaf::settings::WindowControlsStyle;
use tangleaf::window_controls::WindowButton::{Close, Maximize, Minimize};
use tangleaf::window_controls::{
    gnome_layout, ini_value, is_kde_desktop, kde_buttons, kde_layout, system, Platform,
    SystemWindowControls,
};

#[test]
fn kde_defaults_put_minimize_maximize_close_on_the_right() {
    let controls = kde_layout(&[]);
    assert_eq!(controls.style, WindowControlsStyle::Breeze);
    assert!(controls.left.is_empty());
    assert_eq!(controls.right, vec![Minimize, Maximize, Close]);
}

#[test]
fn kde_layout_follows_the_most_specific_file() {
    let user = "[General]\nfoo=1\n[org.kde.kdecoration2]\nButtonsOnLeft=XIA\nButtonsOnRight=\n";
    let theme = "[org.kde.kdecoration2]\nButtonsOnLeft=M\nButtonsOnRight=IAX\n";
    let controls = kde_layout(&[user.into(), theme.into()]);
    assert_eq!(controls.left, vec![Close, Minimize, Maximize]);
    assert!(controls.right.is_empty());
}

#[test]
fn kde_keys_outside_the_decoration_group_are_ignored() {
    let file = "[Windows]\nButtonsOnRight=X\n[org.kde.kdecoration2]\nlibrary=org.kde.breeze\n";
    let controls = kde_layout(&[file.into()]);
    assert_eq!(controls.right, vec![Minimize, Maximize, Close]);
}

#[test]
fn gnome_layout_splits_on_the_colon() {
    let controls = gnome_layout("'close,minimize:appmenu'\n").expect("layout");
    assert_eq!(controls.left, vec![Close, Minimize]);
    assert!(controls.right.is_empty());
    let controls = gnome_layout("'appmenu:close'").expect("layout");
    assert_eq!(controls.right, vec![Close]);
    assert!(gnome_layout("nonsense").is_none());
}

#[test]
fn kde_buttons_keep_only_the_three_window_buttons_in_order() {
    assert_eq!(kde_buttons("MSXNIAH"), vec![Close, Minimize, Maximize]);
    assert!(kde_buttons("").is_empty());
}

#[test]
fn ini_values_are_read_from_their_group_only() {
    let file = "[A]\nkey=one\n[B]\nkey = two\n";
    assert_eq!(ini_value(file, "[A]", "key"), Some("one"));
    assert_eq!(ini_value(file, "[B]", "key"), Some("two"));
    assert_eq!(ini_value(file, "[C]", "key"), None);
    assert_eq!(ini_value(file, "[A]", "other"), None);
}

#[test]
fn kde_is_recognised_from_the_desktop_list() {
    assert!(is_kde_desktop("KDE"));
    assert!(is_kde_desktop("ubuntu:KDE"));
    assert!(!is_kde_desktop("GNOME"));
}

#[test]
fn each_platform_has_its_own_default_controls() {
    let windows = system(Platform::Windows, "", &[], None);
    assert_eq!(windows, SystemWindowControls::right(WindowControlsStyle::Windows));
    let macos = system(Platform::Macos, "", &[], None);
    assert_eq!(macos.style, WindowControlsStyle::Macos);
    assert_eq!(macos.left, vec![Close, Minimize, Maximize]);
    assert!(macos.right.is_empty());
    let gnome_default = system(Platform::Linux, "GNOME", &[], None);
    assert_eq!(gnome_default, SystemWindowControls::right(WindowControlsStyle::Adwaita));
    let gnome = system(Platform::Linux, "GNOME", &[], Some("'close:'"));
    assert_eq!(gnome.left, vec![Close]);
    let kde = system(Platform::Linux, "KDE", &[], Some("'close:'"));
    assert_eq!(kde.style, WindowControlsStyle::Breeze);
    assert_eq!(kde.right, vec![Minimize, Maximize, Close]);
    let other = system(Platform::Other, "", &[], None);
    assert_eq!(other.style, WindowControlsStyle::Minimal);
}
