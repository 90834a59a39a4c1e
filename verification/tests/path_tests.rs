use jsonfmt::path::derive_output_path;

#[test]
fn extension_is_kept() {
    assert_eq!(derive_output_path("foo/bar.json"), "foo/bar_mod.json");
}

#[test]
fn missing_extension_becomes_json() {
    assert_eq!(derive_output_path("foo/bar"), "foo/bar_mod.json");
}

#[test]
fn no_directory_part() {
    assert_eq!(derive_output_path("bar.json"), "bar_mod.json");
    assert_eq!(derive_output_path("bar"), "bar_mod.json");
}

#[test]
fn only_the_last_dot_starts_the_extension() {
    assert_eq!(derive_output_path("a/b/c.tar.gz"), "a/b/c.tar_mod.gz");
}

#[test]
fn leading_dot_belongs_to_the_stem() {
    assert_eq!(derive_output_path(".foo"), ".foo_mod.json");
}

#[test]
fn empty_stem_keeps_the_directory() {
    assert_eq!(derive_output_path("dir/"), "dir/_mod.json");
}

#[test]
fn dot_names_have_no_stem_or_extension() {
    assert_eq!(derive_output_path("dir/.."), "dir/_mod.json");
    assert_eq!(derive_output_path(".."), "_mod.json");
    assert_eq!(derive_output_path("."), "_mod.json");
}
