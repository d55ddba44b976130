use tag_autocomplete::completer::get_tags;
use tag_autocomplete::completer::Completion;
use tag_autocomplete::completer::FilePathCompleter;

#[test]
fn it_offers_all_options_initially() {
    let mut ac = FilePathCompleter::new(get_tags());
    ac.update_input("");

    let suggestions = ac.get_suggestions();

    assert_eq!(
        suggestions,
        vec!["adventure", "action", "mystery", "romance", "scifi"]
    );
}

#[test]
fn it_offers_all_options_with_a_matching_substring() {
    let mut ac = FilePathCompleter::new(get_tags());
    ac.update_input("s");

    let suggestions = ac.get_suggestions();

    assert_eq!(suggestions, vec!["mystery", "scifi"]);
}

#[test]
fn it_only_offers_unused_options() {
    let mut ac = FilePathCompleter::new(get_tags());
    ac.update_input("scifi s");

    let suggestions = ac.get_suggestions();

    assert_eq!(suggestions, vec!["mystery"]);
}

#[test]
fn it_offers_no_options_if_no_matches() {
    let mut ac = FilePathCompleter::new(get_tags());
    ac.update_input("scifi z");
    let suggestions = ac.get_suggestions();

    assert_eq!(suggestions.len(), 0);

    let mut ac = FilePathCompleter::new(get_tags());
    ac.update_input("z");
    let suggestions = ac.get_suggestions();

    assert_eq!(suggestions.len(), 0);
}

#[test]
fn it_completes_the_first_match_after_a_partial_token() {
    let mut ac = FilePathCompleter::new(get_tags());
    ac.update_input("scifi s");

    match ac.get_completion(None) {
        Completion::Replace(text) => assert_eq!(text, "scifi mystery "),
        Completion::Nothing => panic!("expected a replacement"),
    }
}

#[test]
fn it_completes_the_first_catalog_entry_on_empty_input() {
    let mut ac = FilePathCompleter::new(get_tags());
    ac.update_input("");

    match ac.get_completion(None) {
        Completion::Replace(text) => assert_eq!(text, "adventure "),
        Completion::Nothing => panic!("expected a replacement"),
    }
}

#[test]
fn it_completes_nothing_when_no_suggestion_remains() {
    let mut ac = FilePathCompleter::new(get_tags());
    ac.update_input("scifi z");

    match ac.get_completion(None) {
        Completion::Replace(text) => panic!("unexpected replacement {text}"),
        Completion::Nothing => {}
    }
}

#[test]
fn it_uses_an_explicitly_selected_suggestion() {
    let mut ac = FilePathCompleter::new(get_tags());
    ac.update_input("scifi s");

    match ac.get_completion(Some((0, "mystery"))) {
        Completion::Replace(text) => assert_eq!(text, "scifi mystery "),
        Completion::Nothing => panic!("expected a replacement"),
    }
}

#[test]
fn every_suggestion_comes_from_the_catalog() {
    let catalog = get_tags();
    let mut ac = FilePathCompleter::new(catalog.clone());
    ac.update_input("e");

    let suggestions = ac.get_suggestions();
    assert!(!suggestions.is_empty());
    for s in &suggestions {
        assert!(catalog.contains(&s.as_str()));
    }
}

#[test]
fn used_tags_are_never_suggested_again() {
    let mut ac = FilePathCompleter::new(get_tags());
    ac.update_input("mystery romance ");

    let suggestions = ac.get_suggestions();
    assert_eq!(suggestions, vec!["adventure", "action", "scifi"]);
}

#[test]
fn suggestions_are_capped_at_fifteen() {
    let many: Vec<&str> = vec![
        "t01", "t02", "t03", "t04", "t05", "t06", "t07", "t08", "t09", "t10", "t11", "t12",
        "t13", "t14", "t15", "t16", "t17", "t18", "t19", "t20",
    ];
    let mut ac = FilePathCompleter::new(many);
    ac.update_input("");

    let suggestions = ac.get_suggestions();
    assert_eq!(suggestions.len(), 15);
    assert_eq!(suggestions[0], "t01");
    assert_eq!(suggestions[14], "t15");
}

#[test]
fn trailing_whitespace_offers_all_unused_tags() {
    let mut ac = FilePathCompleter::new(get_tags());
    ac.update_input("scifi ");
    let first = ac.get_suggestions();
    assert_eq!(first, vec!["adventure", "action", "mystery", "romance"]);

    ac.update_input("scifi  \t");
    let second = ac.get_suggestions();
    assert_eq!(second, first);
}

#[test]
fn other_whitespace_also_delimits_tokens() {
    let mut ac = FilePathCompleter::new(get_tags());
    ac.update_input("scifi\naction\tm");

    let suggestions = ac.get_suggestions();
    assert_eq!(suggestions, vec!["mystery", "romance"]);
}

#[test]
fn update_is_idempotent() {
    let mut ac = FilePathCompleter::new(get_tags());
    ac.update_input("scifi s");
    let first = ac.get_suggestions();

    ac.update_input("scifi s");
    let second = ac.get_suggestions();

    assert_eq!(first, second);
}

#[test]
fn completions_chain_without_a_current_token() {
    let mut ac = FilePathCompleter::new(get_tags());
    ac.update_input("scifi s");

    let replacement = match ac.get_completion(None) {
        Completion::Replace(text) => text,
        Completion::Nothing => panic!("expected a replacement"),
    };
    assert_eq!(replacement, "scifi mystery ");

    ac.update_input(&replacement);
    let suggestions = ac.get_suggestions();
    assert_eq!(suggestions, vec!["adventure", "action", "romance"]);

    match ac.get_completion(None) {
        Completion::Replace(text) => assert_eq!(text, "scifi mystery adventure "),
        Completion::Nothing => panic!("expected a replacement"),
    }
}

#[test]
fn an_empty_catalog_offers_nothing() {
    let mut ac = FilePathCompleter::new(Vec::new());
    ac.update_input("");

    assert_eq!(ac.get_suggestions().len(), 0);
    match ac.get_completion(None) {
        Completion::Replace(text) => panic!("unexpected replacement {text}"),
        Completion::Nothing => {}
    }
}

#[test]
fn a_fully_typed_tag_already_counts_as_used() {
    let mut ac = FilePathCompleter::new(get_tags());
    ac.update_input("scifi");

    let suggestions = ac.get_suggestions();
    assert_eq!(suggestions.len(), 0);
}
