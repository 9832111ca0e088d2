use pmx::listing::{is_blank_profile, new_profile_template, tree_lines};

fn strings(v: &[&str]) -> Vec<String> {
    v.iter().map(|s| s.to_string()).collect()
}

#[test]
fn template_names_the_profile() {
    assert_eq!(
        new_profile_template("design/plan"),
        "# design/plan\n\n<!-- Add your profile content here -->\n"
    );
}

#[test]
fn untouched_template_is_blank() {
    assert!(is_blank_profile(&new_profile_template("p")));
    assert!(is_blank_profile(""));
    assert!(is_blank_profile("  \n\t\r\n"));
    assert!(is_blank_profile("# p"));
    assert!(is_blank_profile("  # heading\n   <!-- note -->\n\n"));
}

#[test]
fn content_after_the_template_is_kept() {
    assert!(!is_blank_profile("# p\n\nWrite tests first.\n"));
    assert!(!is_blank_profile("<!- almost a comment"));
    assert!(!is_blank_profile("text # not a heading"));
}

#[test]
fn tree_of_top_level_profiles() {
    assert_eq!(
        tree_lines(&strings(&["a", "b"])),
        strings(&["\u{251c}\u{2500}\u{2500} a", "\u{2514}\u{2500}\u{2500} b"])
    );
}

#[test]
fn tree_groups_by_first_segment() {
    let lines = tree_lines(&strings(&["a", "b/c", "b/d/e", "x", "c/z"]));
    assert_eq!(
        lines,
        strings(&[
            "\u{251c}\u{2500}\u{2500} a",
            "\u{251c}\u{2500}\u{2500} x",
            "\u{251c}\u{2500}\u{2500} b/",
            "\u{2502}   \u{251c}\u{2500}\u{2500} c",
            "\u{2502}   \u{2514}\u{2500}\u{2500} d/e",
            "\u{2514}\u{2500}\u{2500} c/",
            "    \u{2514}\u{2500}\u{2500} z",
        ])
    );
}

#[test]
fn tree_of_nothing_is_empty() {
    assert!(tree_lines(&Vec::new()).is_empty());
}
