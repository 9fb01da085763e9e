use tag_sync::parse::Characters;

fn v(s: &str) -> Vec<u8> {
    s.as_bytes().to_vec()
}

fn parsed(s: &str) -> Vec<Vec<u8>> {
    Characters::parse(&v(s)).0
}

#[test]
fn empty_input_yields_empty_tag_set() {
    assert_eq!(parsed(""), Vec::<Vec<u8>>::new());
    assert_eq!(Characters::default().0, Vec::<Vec<u8>>::new());
}

#[test]
fn capitalizes_a_single_word() {
    assert_eq!(parsed("MARIO"), vec![v("Mario")]);
}

#[test]
fn capitalizes_each_space_delimited_word() {
    assert_eq!(parsed("mario luigi"), vec![v("Mario Luigi")]);
}

#[test]
fn keeps_first_occurrence_order_and_deduplicates() {
    assert_eq!(parsed("Mario, Luigi, mario"), vec![v("Mario"), v("Luigi")]);
}

#[test]
fn discards_pieces_of_length_at_most_one() {
    assert_eq!(parsed("a, bc"), vec![v("Bc")]);
    assert_eq!(parsed(" , x,, yz"), vec![v("Yz")]);
}

#[test]
fn trims_surrounding_whitespace() {
    assert_eq!(parsed("  mario  "), vec![v("Mario")]);
    assert_eq!(parsed("\tluigi\r\n"), vec![v("Luigi")]);
}

#[test]
fn resolves_aliases_after_capitalization() {
    assert_eq!(
        parsed("rosalina,  Pyra Mythra, dk"),
        vec![v("Rosalina & Luma"), v("Aegis"), v("Donkey Kong")]
    );
}

#[test]
fn deduplicates_after_alias_resolution() {
    // Two different spellings that resolve to the same canonical name
    // collapse to one entry.
    assert_eq!(parsed("dk, DK"), vec![v("Donkey Kong")]);
    assert_eq!(parsed("g&w, watch"), vec![v("Game & Watch")]);
}
