use proxydeck::card::CardData;
use proxydeck::card::CardFace;
use proxydeck::card::CardLayout;
use proxydeck::card::resolve_faces;
use proxydeck::error::PipelineError;

fn normal_card(name: &str, url: Option<&str>) -> CardData {
    CardData {
        name: name.to_string(),
        layout: CardLayout::Normal,
        artwork_url: url.map(|u| u.to_string()),
        faces: vec![],
    }
}

fn two_faced(layout: CardLayout) -> CardData {
    CardData {
        name: "Delver of Secrets // Insectile Aberration".to_string(),
        layout,
        artwork_url: None,
        faces: vec![
            CardFace {
                name: "Delver of Secrets".to_string(),
                artwork_url: Some("https://cards.invalid/delver.png".to_string()),
            },
            CardFace {
                name: "Insectile Aberration".to_string(),
                artwork_url: Some("https://cards.invalid/aberration.png".to_string()),
            },
        ],
    }
}

#[test]
fn normal_card_yields_one_descriptor_named_after_it() {
    let card = normal_card("Sol Ring", Some("https://cards.invalid/sol.png"));
    let faces = resolve_faces("001", &card).unwrap();
    assert_eq!(faces.len(), 1);
    assert_eq!(faces[0].prefix, "001");
    assert_eq!(faces[0].name, "Sol Ring");
    assert_eq!(faces[0].url, "https://cards.invalid/sol.png");
}

#[test]
fn transform_card_yields_one_descriptor_per_face_in_order() {
    let card = two_faced(CardLayout::Transform);
    let faces = resolve_faces("003", &card).unwrap();
    assert_eq!(faces.len(), 2);
    assert_eq!(faces[0].prefix, "003_00");
    assert_eq!(faces[0].name, "Delver of Secrets");
    assert_eq!(faces[0].url, "https://cards.invalid/delver.png");
    assert_eq!(faces[1].prefix, "003_01");
    assert_eq!(faces[1].name, "Insectile Aberration");
    assert_eq!(faces[1].url, "https://cards.invalid/aberration.png");
}

#[test]
fn modal_double_face_card_expands_like_transform() {
    let card = two_faced(CardLayout::ModalDfc);
    let faces = resolve_faces("007", &card).unwrap();
    assert_eq!(faces.len(), 2);
    assert_eq!(faces[0].prefix, "007_00");
    assert_eq!(faces[1].prefix, "007_01");
}

#[test]
fn unsupported_layout_names_card_and_layout() {
    let card = CardData {
        name: "Gingerbread Hunter".to_string(),
        layout: CardLayout::Other("adventure".to_string()),
        artwork_url: Some("https://cards.invalid/hunter.png".to_string()),
        faces: vec![],
    };
    match resolve_faces("002", &card) {
        Err(PipelineError::UnsupportedLayout { name, layout }) => {
            assert_eq!(name, "Gingerbread Hunter");
            assert_eq!(layout, "adventure");
        },
        _ => panic!("expected an unsupported-layout error"),
    }
}

#[test]
fn normal_card_without_artwork_is_missing_artwork() {
    let card = normal_card("Sol Ring", None);
    match resolve_faces("001", &card) {
        Err(PipelineError::MissingArtwork { name }) => assert_eq!(name, "Sol Ring"),
        _ => panic!("expected a missing-artwork error"),
    }
}

#[test]
fn face_without_artwork_is_missing_artwork_naming_the_face() {
    let mut card = two_faced(CardLayout::Transform);
    card.faces[1].artwork_url = None;
    match resolve_faces("001", &card) {
        Err(PipelineError::MissingArtwork { name }) => {
            assert_eq!(name, "Insectile Aberration")
        },
        _ => panic!("expected a missing-artwork error naming the face"),
    }
}

#[test]
fn multiface_card_with_no_face_list_is_missing_artwork() {
    let card = CardData {
        name: "Delver of Secrets // Insectile Aberration".to_string(),
        layout: CardLayout::Transform,
        artwork_url: None,
        faces: vec![],
    };
    match resolve_faces("001", &card) {
        Err(PipelineError::MissingArtwork { name }) => {
            assert_eq!(name, "Delver of Secrets // Insectile Aberration")
        },
        _ => panic!("expected a missing-artwork error, not a silently empty expansion"),
    }
}

#[test]
fn error_messages_carry_their_context() {
    let card = CardData {
        name: "Weird".to_string(),
        layout: CardLayout::Other("scheme".to_string()),
        artwork_url: None,
        faces: vec![],
    };
    let e = resolve_faces("001", &card).unwrap_err();
    assert_eq!(e.message(), "Card Weird has an unsupported layout: scheme");
    let bare = normal_card("Sol Ring", None);
    let e = resolve_faces("001", &bare).unwrap_err();
    assert_eq!(e.message(), "Card Sol Ring does not have image uris");
}
