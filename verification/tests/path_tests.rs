use statusline::path::{abbreviate, abbreviate_segment};

#[test]
fn segment_plain_word() {
    assert_eq!(abbreviate_segment("root"), "r");
}

#[test]
fn segment_leading_nonword() {
    assert_eq!(abbreviate_segment("~root"), "~r");
}

#[test]
fn segment_underscore_is_word() {
    assert_eq!(abbreviate_segment("private_dot_config"), "p");
}

#[test]
fn segment_dot_then_underscore() {
    assert_eq!(abbreviate_segment("._shares"), "._");
}

#[test]
fn segment_without_word_char_unchanged() {
    assert_eq!(abbreviate_segment("~"), "~");
}

#[test]
fn segment_empty_unchanged() {
    assert_eq!(abbreviate_segment(""), "");
}

#[test]
fn segment_hidden_directory() {
    assert_eq!(abbreviate_segment(".local"), ".l");
}

#[test]
fn abbreviate_absolute_path_keep_one() {
    assert_eq!(abbreviate("/etc/X11/xorg.conf.d", 1), "/e/X/xorg.conf.d");
}

#[test]
fn abbreviate_deep_path_keep_two() {
    assert_eq!(
        abbreviate("~/.local/share/chezmoi/private_dot_config/i3", 2),
        "~/.l/s/c/private_dot_config/i3"
    );
}

#[test]
fn abbreviate_deep_path_keep_one() {
    assert_eq!(
        abbreviate("~/.local/share/chezmoi/private_dot_config/i3", 1),
        "~/.l/s/c/p/i3"
    );
}

#[test]
fn abbreviate_single_segment() {
    assert_eq!(abbreviate("~", 1), "~");
}

#[test]
fn abbreviate_keep_at_segment_count_unchanged() {
    assert_eq!(abbreviate("/etc/X11", 3), "/etc/X11");
}

#[test]
fn abbreviate_keep_past_segment_count_unchanged() {
    assert_eq!(abbreviate("/etc/X11", 100), "/etc/X11");
}

#[test]
fn abbreviate_keep_zero_abbreviates_everything() {
    assert_eq!(abbreviate("/etc/X11/xorg.conf.d", 0), "/e/X/x");
}

#[test]
fn abbreviate_empty_path() {
    assert_eq!(abbreviate("", 1), "");
}
