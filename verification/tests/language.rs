use inline_c::Language;

#[test]
fn language_extension_of_c() {
    assert_eq!(Language::C.to_string(), "c");
}

#[test]
fn language_extension_of_cxx() {
    assert_eq!(Language::Cxx.to_string(), "cpp");
}
