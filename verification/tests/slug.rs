use latex_generator::slug::slugify;

#[test]
fn falls_back_without_alphanumeric_characters() {
    assert_eq!(slugify(""), "latex-project");
    assert_eq!(slugify("   "), "latex-project");
    assert_eq!(slugify("!!! ???"), "latex-project");
}

#[test]
fn joins_words_with_single_hyphens() {
    assert_eq!(slugify("--a--b--"), "a-b");
    assert_eq!(slugify("Rapport: Stage (2026)"), "rapport-stage-2026");
    assert_eq!(slugify("ABC"), "abc");
}

#[test]
fn lowercases_beyond_ascii() {
    assert_eq!(slugify("\u{c9}lan Vital"), "\u{e9}lan-vital");
}

#[test]
fn every_slug_is_well_formed() {
    for name in ["My LaTeX Project", "  Project___2026  ", "a", "-x-", "\u{e9}t\u{e9} 2026", "..."] {
        let slug = slugify(name);
        assert!(!slug.is_empty());
        assert!(!slug.starts_with('-'));
        assert!(!slug.ends_with('-'));
        assert!(!slug.contains("--"));
        assert!(slug.chars().all(|c| c == '-' || c.is_alphanumeric()));
    }
}

#[test]
fn a_lowercase_ascii_slug_is_its_own_slug() {
    for slug in ["my-latex-project", "a", "rapport-stage-2026", "x1-y2"] {
        assert_eq!(slugify(slug), slug);
    }
    let once = slugify("  Rapport: Stage (2026) ");
    assert_eq!(slugify(&once), once);
}

#[test]
fn slugifying_a_slug_again_changes_nothing() {
    for name in ["\u{c9}lan Vital", "  Project___2026  ", "!!!", "caf\u{e9} cr\u{e8}me"] {
        let once = slugify(name);
        assert_eq!(slugify(&once), once);
    }
}
