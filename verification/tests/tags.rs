use textpod::tags::extract_tags;

#[test]
fn words_with_a_number_sign_are_tags() {
    assert_eq!(extract_tags("a #one b #Two, #three."), vec!["one", "two", "three"]);
}

#[test]
fn tags_come_in_the_order_of_the_text_and_may_repeat() {
    assert_eq!(extract_tags("#b #a\n#b"), vec!["b", "a", "b"]);
}

#[test]
fn a_sign_inside_a_word_makes_no_tag() {
    assert!(extract_tags("a#b C# x").is_empty());
}

#[test]
fn a_sign_alone_makes_no_tag() {
    assert!(extract_tags("# ## #! #...").is_empty());
}

#[test]
fn further_signs_and_punctuation_are_dropped() {
    assert_eq!(extract_tags("##x #(y) #-z- #_w_!"), vec!["x", "y", "-z-", "_w_"]);
    assert_eq!(extract_tags("#a.b #a#b"), vec!["a.b", "a#b"]);
}

#[test]
fn letters_of_other_scripts_are_lowered() {
    assert_eq!(extract_tags("#ÀÉ\u{3000}#ΣΑΣ"), vec!["àé", "σας"]);
}

#[test]
fn the_tags_of_joined_texts_follow_each_other() {
    let (a, b) = ("x #a,", "#b y #c");
    let mut both = extract_tags(a);
    both.extend(extract_tags(b));
    assert_eq!(extract_tags(&format!("{a} \n{b}")), both);
}

#[test]
fn tags_are_read_back_from_a_row_of_them() {
    let tags = extract_tags("#One x #two-2! #_c_");
    let row: Vec<String> = tags.iter().map(|t| format!("#{t}")).collect();
    assert_eq!(extract_tags(&row.join(" ")), tags);
}

#[test]
fn white_space_around_the_text_has_no_part_in_the_tags() {
    assert_eq!(extract_tags("\n #a \t#b\u{2003}"), extract_tags("#a \t#b"));
}
