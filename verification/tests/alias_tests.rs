use tag_sync::alias::find_alias;
use tag_sync::alias::identify_character;

fn v(s: &str) -> Vec<u8> {
    s.as_bytes().to_vec()
}

fn resolved(s: &str) -> Vec<u8> {
    find_alias(v(s))
}

#[test]
fn game_or_watch_resolves_to_game_and_watch() {
    assert_eq!(resolved("Game"), v("Game & Watch"));
    assert_eq!(resolved("Watch"), v("Game & Watch"));
    assert_eq!(resolved("Mr Game And Watch"), v("Game & Watch"));
}

#[test]
fn banjo_rule_targets_game_and_watch() {
    // The literal alias table sends Banjo and Kazooie to "Game & Watch".
    assert_eq!(resolved("Banjo"), v("Game & Watch"));
    assert_eq!(resolved("Kazooie"), v("Game & Watch"));
}

#[test]
fn rosalina_resolves_to_rosalina_and_luma() {
    assert_eq!(resolved("Rosalina"), v("Rosalina & Luma"));
}

#[test]
fn pyra_and_mythra_together_resolve_to_aegis() {
    assert_eq!(resolved("Pyra Mythra"), v("Aegis"));
    assert_eq!(resolved("Aegis"), v("Aegis"));
    // Pyra alone matches no rule.
    assert_eq!(resolved("Pyra"), v("Pyra"));
    assert_eq!(resolved("Mythra"), v("Mythra"));
}

#[test]
fn exact_abbreviations_expand() {
    assert_eq!(resolved("Dk"), v("Donkey Kong"));
    assert_eq!(resolved("G&w"), v("Game & Watch"));
    assert_eq!(resolved("G & W"), v("Game & Watch"));
}

#[test]
fn unknown_token_is_returned_unchanged() {
    assert_eq!(resolved("Mario"), v("Mario"));
    assert_eq!(identify_character(&v("Mario")), None);
    assert_eq!(resolved(""), v(""));
}

#[test]
fn resolution_is_total_and_keeps_tokens_non_empty() {
    for s in ["M", "Mario", "Banjo", "Dk", "Zelda Of Hyrule", "&"] {
        assert!(!resolved(s).is_empty());
    }
}

#[test]
fn substring_rules_are_case_sensitive() {
    // The capitalized form "G&w" does not contain "Game" or "Watch"; only the
    // exact abbreviation rule catches it.
    assert_eq!(identify_character(&v("game")), None);
    assert_eq!(identify_character(&v("watch")), None);
    assert_eq!(identify_character(&v("G&w")), Some(v("Game & Watch")));
}
