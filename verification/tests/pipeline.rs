use proxydeck::card::CardData;
use proxydeck::card::CardLayout;
use proxydeck::deck::parse_decklist;
use proxydeck::error::PipelineError;
use proxydeck::pipeline::plan_faces;
use proxydeck::sanitize::sanitize_with_prefix;

fn found(name: &str) -> Option<CardData> {
    let mut url = String::new();
    url.push_str("https://cards.invalid/");
    url.push_str(name);
    url.push_str(".png");
    Some(CardData {
        name: name.to_string(),
        layout: CardLayout::Normal,
        artwork_url: Some(url),
        faces: vec![],
    })
}

#[test]
fn whole_decklist_expands_in_order() {
    let instances = parse_decklist("1 Sol Ring\n4 Springleaf Drum\n4 Swamp").unwrap();
    assert_eq!(instances.len(), 9);
    let lookups: Vec<Option<CardData>> = instances.iter().map(|i| found(&i.name)).collect();
    let faces = plan_faces(&instances, &lookups).unwrap();
    assert_eq!(faces.len(), 9);
    let expected = [
        "001_sol_ring.png",
        "002_springleaf_drum.png",
        "003_springleaf_drum.png",
        "004_springleaf_drum.png",
        "005_springleaf_drum.png",
        "006_swamp.png",
        "007_swamp.png",
        "008_swamp.png",
        "009_swamp.png",
    ];
    for (face, want) in faces.iter().zip(expected.iter()) {
        let file = sanitize_with_prefix(&face.prefix, &face.name);
        assert_eq!(&file, want);
    }
    assert_eq!(faces[0].url, "https://cards.invalid/Sol Ring.png");
}

#[test]
fn one_not_found_card_fails_the_run_naming_it() {
    let instances = parse_decklist("1 Sol Ring\n1 Notacard\n1 Swamp").unwrap();
    let lookups: Vec<Option<CardData>> = vec![
        found("Sol Ring"),
        None,
        found("Swamp"),
    ];
    match plan_faces(&instances, &lookups) {
        Err(PipelineError::NotFound { prefix, name }) => {
            assert_eq!(prefix, "002");
            assert_eq!(name, "Notacard");
        },
        _ => panic!("expected a not-found error naming the instance"),
    }
}

#[test]
fn resolution_error_of_a_later_card_fails_the_plan() {
    let instances = parse_decklist("2 Swamp\n1 Weird").unwrap();
    let weird = Some(CardData {
        name: "Weird".to_string(),
        layout: CardLayout::Other("scheme".to_string()),
        artwork_url: None,
        faces: vec![],
    });
    let lookups: Vec<Option<CardData>> = vec![found("Swamp"), found("Swamp"), weird];
    match plan_faces(&instances, &lookups) {
        Err(PipelineError::UnsupportedLayout { name, layout }) => {
            assert_eq!(name, "Weird");
            assert_eq!(layout, "scheme");
        },
        _ => panic!("expected the layout error to fail the plan"),
    }
}

#[test]
fn empty_plan_is_empty() {
    let instances = parse_decklist("").unwrap();
    let lookups: Vec<Option<CardData>> = vec![];
    let faces = plan_faces(&instances, &lookups).unwrap();
    assert_eq!(faces.len(), 0);
}

#[test]
fn not_found_message_names_prefix_and_card() {
    let instances = parse_decklist("1 Notacard").unwrap();
    let lookups: Vec<Option<CardData>> = vec![None];
    let e = plan_faces(&instances, &lookups).unwrap_err();
    assert_eq!(e.message(), "Card 001 Notacard was not found");
}
