use song_catalog::{find_by_level, Catalog, Song, Variant};

fn chart(id: i32, title: &str, four: [Option<i32>; 4]) -> Song {
    Song {
        id,
        title: title.to_string(),
        artist: "Artist".to_string(),
        min_bpm: Some(120_000),
        max_bpm: 150_000,
        category: "Respect".to_string(),
        dlc: None,
        four_button_0: four[0].unwrap(),
        four_button_1: four[1],
        four_button_2: four[2],
        four_button_3: four[3],
        five_button_0: 20,
        five_button_1: Some(21),
        five_button_2: None,
        five_button_3: None,
        six_button_0: 30,
        six_button_1: None,
        six_button_2: Some(31),
        six_button_3: None,
        eight_button_0: 40,
        eight_button_1: None,
        eight_button_2: None,
        eight_button_3: Some(41),
    }
}

fn two_risings() -> Catalog {
    let mut catalog = Catalog::new();
    Song::create_or_update(
        &chart(2, "Rising Again", [Some(14), None, None, None]),
        &mut catalog,
    );
    Song::create_or_update(
        &chart(1, "Rising", [Some(12), Some(14), None, None]),
        &mut catalog,
    );
    catalog
}

fn many(count: i32) -> Catalog {
    let mut catalog = Catalog::new();
    for id in (1..=count).rev() {
        Song::create_or_update(&chart(id, "Song", [Some(14), None, None, None]), &mut catalog);
    }
    // songs that do not match, between and around the others
    Song::create_or_update(&chart(0, "Miss", [Some(13), None, None, None]), &mut catalog);
    Song::create_or_update(&chart(count + 1, "Miss", [Some(15), None, None, None]), &mut catalog);
    catalog
}

fn page_ids(page: &[Song]) -> Vec<i32> {
    page.iter().map(|s| s.id).collect()
}

#[test]
fn slot_match_reports_the_matching_variant() {
    let mut catalog = Catalog::new();
    Song::create_or_update(&chart(1, "Rising", [Some(12), Some(14), None, None]), &mut catalog);

    let at_14 = find_by_level(4, 14, 1, &catalog);
    assert_eq!(at_14.total_count, 1);
    assert_eq!(at_14.items.len(), 1);
    assert_eq!(at_14.items[0].song.id, 1);
    assert_eq!(at_14.items[0].variants, vec![Variant::Hd]);

    let at_12 = find_by_level(4, 12, 1, &catalog);
    assert_eq!(at_12.total_count, 1);
    assert_eq!(at_12.items[0].variants, vec![Variant::Nm]);

    let at_5 = find_by_level(4, 5, 1, &catalog);
    assert_eq!(at_5.total_count, 0);
    assert!(at_5.items.is_empty());
}

#[test]
fn a_song_can_match_on_several_slots() {
    let mut catalog = Catalog::new();
    Song::create_or_update(
        &chart(1, "Twice", [Some(9), None, Some(9), Some(9)]),
        &mut catalog,
    );
    let found = find_by_level(4, 9, 1, &catalog);
    assert_eq!(found.total_count, 1);
    assert_eq!(found.items[0].variants, vec![Variant::Nm, Variant::Mx, Variant::Sc]);
    let all = chart(2, "All", [Some(3), Some(3), Some(3), Some(3)]);
    assert_eq!(
        all.matched_variants(4, 3),
        vec![Variant::Nm, Variant::Hd, Variant::Mx, Variant::Sc]
    );
}

#[test]
fn each_mode_reads_its_own_slots() {
    let mut catalog = Catalog::new();
    Song::create_or_update(&chart(1, "Modes", [Some(10), None, None, None]), &mut catalog);
    assert_eq!(find_by_level(5, 21, 1, &catalog).items[0].variants, vec![Variant::Hd]);
    assert_eq!(find_by_level(6, 31, 1, &catalog).items[0].variants, vec![Variant::Mx]);
    assert_eq!(find_by_level(8, 41, 1, &catalog).items[0].variants, vec![Variant::Sc]);
    assert_eq!(find_by_level(8, 40, 1, &catalog).items[0].variants, vec![Variant::Nm]);
    assert_eq!(find_by_level(4, 21, 1, &catalog).total_count, 0);
    assert_eq!(find_by_level(5, 10, 1, &catalog).total_count, 0);
    assert_eq!(Song::by_level(5, 20, 0, &catalog).0, 1);
    assert_eq!(Song::by_level(6, 30, 0, &catalog).0, 1);
    assert_eq!(Song::by_level(8, 41, 0, &catalog).0, 1);
}

#[test]
fn two_risings_by_level() {
    let catalog = two_risings();
    let found = find_by_level(4, 14, 1, &catalog);
    assert_eq!(found.total_count, 2);
    assert_eq!(found.items.len(), 2);
    assert_eq!(found.items[0].song.id, 1);
    assert_eq!(found.items[0].variants, vec![Variant::Hd]);
    assert_eq!(found.items[1].song.id, 2);
    assert_eq!(found.items[1].variants, vec![Variant::Nm]);

    let (count, songs) = Song::by_level(4, 14, 0, &catalog);
    assert_eq!(count, 2);
    assert_eq!(page_ids(&songs), vec![1, 2]);
}

#[test]
fn two_risings_by_title() {
    let catalog = two_risings();
    let found = Song::by_title("Rising", &catalog).unwrap();
    assert_eq!(found.id, 1);
    assert_eq!(found.title, "Rising");
    let again = Song::by_title("Rising Again", &catalog).unwrap();
    assert_eq!(again.id, 2);
    let tail = Song::by_title("Again", &catalog).unwrap();
    assert_eq!(tail.id, 2);
}

#[test]
fn empty_fragment_finds_nothing() {
    let catalog = two_risings();
    assert_eq!(catalog.len(), 2);
    assert!(Song::by_title("", &catalog).is_none());
    assert!(Song::by_title("", &Catalog::new()).is_none());
}

#[test]
fn title_search_is_case_sensitive_and_literal() {
    let catalog = two_risings();
    assert!(Song::by_title("rising", &catalog).is_none());
    assert!(Song::by_title("RISING", &catalog).is_none());
    assert!(Song::by_title("Rising%Again", &catalog).is_none());
    assert!(Song::by_title("Risin_", &catalog).is_none());
    assert!(Song::by_title("Rising Again!", &catalog).is_none());
    assert_eq!(Song::by_title("g A", &catalog).unwrap().id, 2);
}

#[test]
fn title_search_reads_characters_beyond_ascii() {
    let mut catalog = Catalog::new();
    Song::create_or_update(&chart(3, "바람에게 부탁해", [Some(4), None, None, None]), &mut catalog);
    Song::create_or_update(&chart(4, "Für Elise", [Some(4), None, None, None]), &mut catalog);
    assert_eq!(Song::by_title("부탁", &catalog).unwrap().id, 3);
    assert_eq!(Song::by_title("ür E", &catalog).unwrap().id, 4);
    assert!(Song::by_title("부탁 ", &catalog).is_none());
}

#[test]
fn a_mode_that_is_none_finds_nothing() {
    let catalog = two_risings();
    for mode in [0, 1, 3, 7, 9, -4, i32::MAX, i32::MIN] {
        let found = find_by_level(mode, 14, 1, &catalog);
        assert_eq!(found.total_count, 0);
        assert!(found.items.is_empty());
        let (count, songs) = Song::by_level(mode, 14, 0, &catalog);
        assert_eq!(count, 0);
        assert!(songs.is_empty());
    }
}

#[test]
fn a_page_that_is_not_positive_finds_nothing() {
    let catalog = two_risings();
    for page in [0, -1, i64::MIN] {
        let found = find_by_level(4, 14, page, &catalog);
        assert_eq!(found.total_count, 0);
        assert_eq!(found.total_pages, 1);
        assert!(found.items.is_empty());
    }
    for offset in [-1, -25, i64::MIN] {
        let (count, songs) = Song::by_level(4, 14, offset, &catalog);
        assert_eq!(count, 0);
        assert!(songs.is_empty());
    }
}

#[test]
fn pages_hold_every_match_once() {
    let catalog = many(60);
    let mut seen: Vec<i32> = Vec::new();
    let mut sizes: Vec<usize> = Vec::new();
    for page in 1..=3 {
        let found = find_by_level(4, 14, page, &catalog);
        assert_eq!(found.total_count, 60);
        assert_eq!(found.total_pages, 3);
        sizes.push(found.items.len());
        seen.extend(found.items.iter().map(|m| m.song.id));
    }
    assert_eq!(sizes, vec![25, 25, 10]);
    assert_eq!(seen, (1..=60).collect::<Vec<i32>>());
    let beyond = find_by_level(4, 14, 4, &catalog);
    assert_eq!(beyond.total_count, 60);
    assert!(beyond.items.is_empty());
}

#[test]
fn the_last_page_of_a_multiple_of_25_is_full() {
    let catalog = many(50);
    let first = find_by_level(4, 14, 1, &catalog);
    let second = find_by_level(4, 14, 2, &catalog);
    let third = find_by_level(4, 14, 3, &catalog);
    assert_eq!(first.items.len(), 25);
    assert_eq!(second.items.len(), 25);
    assert_eq!(third.items.len(), 0);
    assert_eq!(second.items[24].song.id, 50);
    assert_eq!(second.items[0].song.id, 26);
    assert_eq!(third.total_count, 50);
}

#[test]
fn exactly_25_matches_are_shown_as_two_pages() {
    let catalog = many(25);
    let found = find_by_level(4, 14, 1, &catalog);
    assert_eq!(found.total_count, 25);
    assert_eq!(found.items.len(), 25);
    assert_eq!(found.total_pages, 2);
    let second = find_by_level(4, 14, 2, &catalog);
    assert_eq!(second.total_count, 25);
    assert_eq!(second.total_pages, 2);
    assert!(second.items.is_empty());
}

#[test]
fn by_level_takes_any_offset() {
    let catalog = many(30);
    let (count, songs) = Song::by_level(4, 14, 3, &catalog);
    assert_eq!(count, 30);
    assert_eq!(page_ids(&songs), (4..=28).collect::<Vec<i32>>());
    let (count, songs) = Song::by_level(4, 14, 29, &catalog);
    assert_eq!(count, 30);
    assert_eq!(page_ids(&songs), vec![30]);
    let (count, songs) = Song::by_level(4, 14, 30, &catalog);
    assert_eq!(count, 30);
    assert!(songs.is_empty());
    let (count, songs) = Song::by_level(4, 14, i64::MAX, &catalog);
    assert_eq!(count, 30);
    assert!(songs.is_empty());
}

#[test]
fn a_page_far_beyond_the_last_is_empty() {
    let catalog = many(30);
    for page in [3, 1_000_000, i64::MAX / 25, i64::MAX / 25 + 2, i64::MAX] {
        let found = find_by_level(4, 14, page, &catalog);
        assert_eq!(found.total_count, 30);
        assert_eq!(found.total_pages, 2);
        assert!(found.items.is_empty());
    }
}

#[test]
fn by_words_finds_the_first_title_with_the_words_in_order() {
    let catalog = two_risings();
    assert_eq!(Song::by_words("Rising Again", &catalog).unwrap().id, 2);
    assert_eq!(Song::by_words("Rising", &catalog).unwrap().id, 1);
    assert_eq!(Song::by_words("Ris ing", &catalog).unwrap().id, 1);
    assert_eq!(Song::by_words("R A", &catalog).unwrap().id, 2);
    assert_eq!(Song::by_words(" Again ", &catalog).unwrap().id, 2);
    assert!(Song::by_words("Again Rising", &catalog).is_none());
    assert!(Song::by_words("rising again", &catalog).is_none());
    assert!(Song::by_words("Rising%Again", &catalog).is_none());
}

#[test]
fn by_words_without_a_word_finds_nothing() {
    let catalog = two_risings();
    assert!(Song::by_words("", &catalog).is_none());
    assert!(Song::by_words(" ", &catalog).is_none());
    assert!(Song::by_words("   ", &catalog).is_none());
    assert!(Song::by_words("x", &Catalog::new()).is_none());
}
