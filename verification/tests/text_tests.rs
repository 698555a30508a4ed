use rtils::text::get_extension;

#[test]
fn rtils_extension_tests() {
    assert_eq!(get_extension("test.png"), "png");
    assert_eq!(get_extension("test.bak.png"), "png");
    assert_eq!(get_extension("test.jpeg"), "jpeg");
    assert_eq!(get_extension("test.bak.jpeg"), "jpeg");
}

#[test]
fn server_extension_tests() {
    assert_eq!(get_extension("test.png"), "png");
    assert_eq!(get_extension("test.bak.png"), "png");
    assert_eq!(get_extension("test.jpeg"), "jpeg");
    assert_eq!(get_extension("test.bak.jpeg"), "jpeg");
}

#[test]
fn extension_of_names_without_a_dot_is_the_name() {
    assert_eq!(get_extension("README"), "README");
    assert_eq!(get_extension("archive."), "");
    assert_eq!(get_extension(""), "");
    assert_eq!(get_extension(".hidden"), "hidden");
}
