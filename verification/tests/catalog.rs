use song_catalog::{Catalog, Facet, Song};

fn song(id: i32, title: &str, four: [Option<i32>; 4]) -> Song {
    Song {
        id,
        title: title.to_string(),
        artist: "Artist".to_string(),
        min_bpm: None,
        max_bpm: 150_000,
        category: "Respect".to_string(),
        dlc: None,
        four_button_0: four[0].unwrap(),
        four_button_1: four[1],
        four_button_2: four[2],
        four_button_3: four[3],
        five_button_0: 1,
        five_button_1: None,
        five_button_2: None,
        five_button_3: None,
        six_button_0: 2,
        six_button_1: None,
        six_button_2: None,
        six_button_3: None,
        eight_button_0: 3,
        eight_button_1: None,
        eight_button_2: None,
        eight_button_3: None,
    }
}

fn same(a: &Song, b: &Song) -> bool {
    a.id == b.id
        && a.title == b.title
        && a.artist == b.artist
        && a.min_bpm == b.min_bpm
        && a.max_bpm == b.max_bpm
        && a.category == b.category
        && a.dlc == b.dlc
        && a.four_button_0 == b.four_button_0
        && a.four_button_1 == b.four_button_1
        && a.four_button_2 == b.four_button_2
        && a.four_button_3 == b.four_button_3
        && a.five_button_0 == b.five_button_0
        && a.five_button_1 == b.five_button_1
        && a.five_button_2 == b.five_button_2
        && a.five_button_3 == b.five_button_3
        && a.six_button_0 == b.six_button_0
        && a.six_button_1 == b.six_button_1
        && a.six_button_2 == b.six_button_2
        && a.six_button_3 == b.six_button_3
        && a.eight_button_0 == b.eight_button_0
        && a.eight_button_1 == b.eight_button_1
        && a.eight_button_2 == b.eight_button_2
        && a.eight_button_3 == b.eight_button_3
}

fn ids(catalog: &Catalog) -> Vec<i32> {
    let all = Facet::Title { fragment: Vec::new() };
    let (_, songs) = catalog.scan(&all, usize::MAX, 0);
    songs.iter().map(|s| s.id).collect()
}

#[test]
fn new_catalog_is_empty() {
    let catalog = Catalog::new();
    assert_eq!(catalog.len(), 0);
    assert!(Song::by_id(1, &catalog).is_none());
}

#[test]
fn by_id_finds_what_was_put_in() {
    let mut catalog = Catalog::new();
    let rising = song(1, "Rising", [Some(12), Some(14), None, None]);
    let saved = Song::create_or_update(&rising, &mut catalog).unwrap();
    assert!(same(&saved, &rising));
    let found = Song::by_id(1, &catalog).unwrap();
    assert!(same(&found, &rising));
    assert!(Song::by_id(2, &catalog).is_none());
    assert!(Song::by_id(0, &catalog).is_none());
    assert!(Song::by_id(i32::MIN, &catalog).is_none());
    assert!(Song::by_id(i32::MAX, &catalog).is_none());
}

#[test]
fn upsert_twice_is_upsert_once() {
    let rising = song(1, "Rising", [Some(12), Some(14), None, None]);
    let other = song(7, "Other", [Some(3), None, None, None]);

    let mut once = Catalog::new();
    Song::create_or_update(&other, &mut once);
    Song::create_or_update(&rising, &mut once);

    let mut twice = Catalog::new();
    Song::create_or_update(&other, &mut twice);
    Song::create_or_update(&rising, &mut twice);
    Song::create_or_update(&rising, &mut twice);

    assert_eq!(once.len(), 2);
    assert_eq!(twice.len(), 2);
    assert_eq!(ids(&once), vec![1, 7]);
    assert_eq!(ids(&twice), vec![1, 7]);
    let a = Song::by_id(1, &once).unwrap();
    let b = Song::by_id(1, &twice).unwrap();
    assert!(same(&a, &b));
    assert!(same(&a, &rising));
    assert!(same(&Song::by_id(7, &twice).unwrap(), &other));
}

#[test]
fn upsert_replaces_the_whole_record() {
    let mut catalog = Catalog::new();
    let mut old = song(1, "Old Title", [Some(5), Some(9), Some(11), Some(13)]);
    old.min_bpm = Some(90_000);
    old.dlc = Some("Pack".to_string());
    old.artist = "Old Artist".to_string();
    Song::create_or_update(&old, &mut catalog);

    let new = song(1, "New Title", [Some(6), None, None, None]);
    Song::create_or_update(&new, &mut catalog);

    assert_eq!(catalog.len(), 1);
    let found = Song::by_id(1, &catalog).unwrap();
    assert!(same(&found, &new));
    assert_eq!(found.title, "New Title");
    assert_eq!(found.artist, "Artist");
    assert_eq!(found.min_bpm, None);
    assert_eq!(found.dlc, None);
    assert_eq!(found.four_button_1, None);
    assert_eq!(found.four_button_2, None);
    assert_eq!(found.four_button_3, None);
}

#[test]
fn upsert_leaves_other_records_alone() {
    let mut catalog = Catalog::new();
    let a = song(1, "A", [Some(1), None, None, None]);
    let b = song(2, "B", [Some(2), None, None, None]);
    let c = song(3, "C", [Some(3), None, None, None]);
    Song::create_or_update(&a, &mut catalog);
    Song::create_or_update(&b, &mut catalog);
    Song::create_or_update(&c, &mut catalog);
    let b2 = song(2, "B again", [Some(9), None, None, None]);
    Song::create_or_update(&b2, &mut catalog);
    assert_eq!(catalog.len(), 3);
    assert!(same(&Song::by_id(1, &catalog).unwrap(), &a));
    assert!(same(&Song::by_id(2, &catalog).unwrap(), &b2));
    assert!(same(&Song::by_id(3, &catalog).unwrap(), &c));
}

#[test]
fn records_stand_in_id_order_whatever_the_order_of_arrival() {
    let mut catalog = Catalog::new();
    for id in [5, -3, 9, 1, 0, 7, i32::MAX, i32::MIN, 2] {
        Song::create_or_update(&song(id, "T", [Some(1), None, None, None]), &mut catalog);
    }
    assert_eq!(ids(&catalog), vec![i32::MIN, -3, 0, 1, 2, 5, 7, 9, i32::MAX]);
}

#[test]
fn scan_counts_all_and_hands_out_a_window() {
    let mut catalog = Catalog::new();
    for id in 1..=10 {
        let level = if id % 2 == 0 { 8 } else { 3 };
        Song::create_or_update(&song(id, "T", [Some(level), None, None, None]), &mut catalog);
    }
    let facet = Facet::Level { button: 4, level: 8 };
    let (total, page) = catalog.scan(&facet, 2, 1);
    assert_eq!(total, 5);
    assert_eq!(page.iter().map(|s| s.id).collect::<Vec<_>>(), vec![4, 6]);
    let (total, page) = catalog.scan(&facet, 2, 4);
    assert_eq!(total, 5);
    assert_eq!(page.iter().map(|s| s.id).collect::<Vec<_>>(), vec![10]);
    let (total, page) = catalog.scan(&facet, 2, 5);
    assert_eq!(total, 5);
    assert!(page.is_empty());
    let (total, page) = catalog.scan(&facet, 0, 0);
    assert_eq!(total, 5);
    assert!(page.is_empty());
    let (total, page) = catalog.scan(&facet, usize::MAX, usize::MAX);
    assert_eq!(total, 5);
    assert!(page.is_empty());
    let none = Facet::Level { button: 7, level: 8 };
    let (total, page) = catalog.scan(&none, 10, 0);
    assert_eq!(total, 0);
    assert!(page.is_empty());
}

#[test]
fn facet_admits_by_level_and_by_title() {
    let rising = song(1, "Rising", [Some(12), Some(14), None, None]);
    assert!(Facet::Level { button: 4, level: 14 }.admits(&rising));
    assert!(Facet::Level { button: 5, level: 1 }.admits(&rising));
    assert!(!Facet::Level { button: 5, level: 14 }.admits(&rising));
    assert!(!Facet::Level { button: 3, level: 14 }.admits(&rising));
    assert!(Facet::Title { fragment: "sin".chars().collect() }.admits(&rising));
    assert!(!Facet::Title { fragment: "Sin".chars().collect() }.admits(&rising));
    assert!(Facet::Title { fragment: Vec::new() }.admits(&rising));
    let words = |texts: &[&str]| Facet::Words {
        parts: texts.iter().map(|t| t.chars().collect()).collect(),
    };
    assert!(words(&["Ris", "ing"]).admits(&rising));
    assert!(words(&["R", "g"]).admits(&rising));
    assert!(words(&[]).admits(&rising));
    assert!(!words(&["ing", "Ris"]).admits(&rising));
    assert!(!words(&["Rising", "g"]).admits(&rising));
}
