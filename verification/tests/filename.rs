use textpod::filename::url_to_safe_filename;

#[test]
fn https_is_dropped() {
    assert_eq!(url_to_safe_filename("https://example.com/a?b"), "example.com_a_b");
}

#[test]
fn http_alone_is_kept() {
    assert_eq!(url_to_safe_filename("http://example.com"), "http___example.com");
}

#[test]
fn http_before_https_is_dropped_with_it() {
    assert_eq!(url_to_safe_filename("http://https://example.com"), "example.com");
    assert_eq!(url_to_safe_filename("  http://https://example.com"), "example.com");
}

#[test]
fn white_space_before_https_keeps_the_url_whole() {
    assert_eq!(url_to_safe_filename(" https://a.b"), "_https___a.b");
}

#[test]
fn every_forbidden_character_becomes_an_underscore() {
    assert_eq!(url_to_safe_filename("a/b\\c:d*e?f\"g<h>i|j k#l"), "a_b_c_d_e_f_g_h_i_j_k_l");
}

#[test]
fn letters_of_other_scripts_stay() {
    assert_eq!(url_to_safe_filename("https://пример.рф/é-1_2"), "пример.рф_é-1_2");
}

#[test]
fn dots_at_the_ends_are_dropped() {
    assert_eq!(url_to_safe_filename("https://../a.b.."), "_a.b");
    assert_eq!(url_to_safe_filename("..."), "");
    assert_eq!(url_to_safe_filename(""), "");
}

#[test]
fn a_file_name_made_again_stays() {
    for url in ["https://a.b/c?d", "http://x", " https://y/. ", "..é.."] {
        let name = url_to_safe_filename(url);
        assert_eq!(url_to_safe_filename(&name), name);
    }
}

#[test]
fn a_file_name_names_no_other_directory() {
    for url in ["https://../../etc/passwd", "..", ".", "/..", "https://a\\..\\b", "https://."] {
        let name = url_to_safe_filename(url);
        assert!(!name.contains('/') && !name.contains('\\'));
        assert!(!name.starts_with('.') && !name.ends_with('.'));
    }
}
