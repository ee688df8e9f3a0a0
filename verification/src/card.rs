//! Card data as the resolver reads it, and the expansion of one resolved
//! card into its renderable faces.

use vstd::prelude::*;
use crate::error::ErrV;
use crate::error::PipelineError;
use crate::text::face_prefix;
use crate::text::format_face_prefix;

verus! {

/// The database's classification of how many faces a card has. Anything
/// but the three supported kinds is carried verbatim, so that a new layout
/// surfaces as a visible error rather than a misread card.
pub enum CardLayout {
    Normal,
    ModalDfc,
    Transform,
    Other(String),
}

/// One visual face of a card, as the database describes it.
pub struct CardFace {
    pub name: String,
    pub artwork_url: Option<String>,
}

/// What the card database returns for one name: the canonical card name,
/// its layout, the card-level artwork reference, and the face list (empty
/// when the database sent none).
pub struct CardData {
    pub name: String,
    pub layout: CardLayout,
    pub artwork_url: Option<String>,
    pub faces: Vec<CardFace>,
}

/// One face to render: its file prefix, its name, and the artwork URL to
/// fetch.
#[derive(Debug)]
pub struct FaceDescriptor {
    pub prefix: String,
    pub name: String,
    pub url: String,
}

/// The mathematical shadow of `FaceDescriptor`.
pub ghost struct FaceV {
    pub prefix: Seq<char>,
    pub name: Seq<char>,
    pub url: Seq<char>,
}

impl View for FaceDescriptor {
    type V = FaceV;

    open spec fn view(&self) -> FaceV {
        FaceV { prefix: self.prefix@, name: self.name@, url: self.url@ }
    }
}

/// The faces of a multi-faced card from index `i` on, in the database's
/// order, each under its two-digit face suffix; or the first face that
/// lacks artwork.
pub open spec fn faces_spec(prefix: Seq<char>, faces: Seq<CardFace>, i: int) -> Result<
    Seq<FaceV>,
    ErrV,
>
    decreases faces.len() - i,
{
    if i < 0 || i >= faces.len() {
        Ok(Seq::empty())
    } else {
        match faces[i].artwork_url {
            None => Err(ErrV::MissingArtwork { name: faces[i].name@ }),
            Some(u) => match faces_spec(prefix, faces, i + 1) {
                Err(e) => Err(e),
                Ok(rest) => Ok(
                    seq![
                        FaceV {
                            prefix: face_prefix(prefix, i as nat),
                            name: faces[i].name@,
                            url: u@,
                        },
                    ] + rest,
                ),
            },
        }
    }
}

/// The faces of a multi-faced card: every declared face, in the database's
/// order. A card that declares no faces at all has no artwork to render,
/// which is `MissingArtwork` naming the card — never a silently empty
/// expansion.
pub open spec fn multiface_spec(prefix: Seq<char>, card: CardData) -> Result<Seq<FaceV>, ErrV> {
    if card.faces@.len() == 0 {
        Err(ErrV::MissingArtwork { name: card.name@ })
    } else {
        faces_spec(prefix, card.faces@, 0)
    }
}

/// What resolving one card instance yields: one face named after the card
/// for a `Normal` layout, one face per database face for the two
/// multi-faced layouts, and an error naming card and layout for anything
/// else. A face without artwork — or a multi-faced card without faces —
/// is an error naming that face or card, never a silent skip: every
/// instance yields at least one face or fails.
pub open spec fn resolve_spec(prefix: Seq<char>, card: CardData) -> Result<Seq<FaceV>, ErrV> {
    match card.layout {
        CardLayout::Normal => match card.artwork_url {
            None => Err(ErrV::MissingArtwork { name: card.name@ }),
            Some(u) => Ok(seq![FaceV { prefix: prefix, name: card.name@, url: u@ }]),
        },
        CardLayout::ModalDfc => multiface_spec(prefix, card),
        CardLayout::Transform => multiface_spec(prefix, card),
        CardLayout::Other(l) => Err(ErrV::UnsupportedLayout { name: card.name@, layout: l@ }),
    }
}

/// A face-expansion result, seen mathematically.
pub open spec fn faces_view(r: Result<Vec<FaceDescriptor>, PipelineError>) -> Result<
    Seq<FaceV>,
    ErrV,
> {
    match r {
        Ok(v) => Ok(v@.map_values(|f: FaceDescriptor| f@)),
        Err(e) => Err(e@),
    }
}

proof fn lemma_faces_ok(prefix: Seq<char>, faces: Seq<CardFace>, i: int)
    requires
        0 <= i <= faces.len(),
        forall|j: int| i <= j < faces.len() ==> (#[trigger] faces[j]).artwork_url is Some,
    ensures
        faces_spec(prefix, faces, i) == Ok::<Seq<FaceV>, ErrV>(
            Seq::new(
                (faces.len() - i) as nat,
                |t: int|
                    FaceV {
                        prefix: face_prefix(prefix, (i + t) as nat),
                        name: faces[i + t].name@,
                        url: faces[i + t].artwork_url->0@,
                    },
            ),
        ),
    decreases faces.len() - i,
{
    if i == faces.len() {
        assert(Seq::new(
            0,
            |t: int|
                FaceV {
                    prefix: face_prefix(prefix, (i + t) as nat),
                    name: faces[i + t].name@,
                    url: faces[i + t].artwork_url->0@,
                },
        ) =~= Seq::<FaceV>::empty());
    } else {
        lemma_faces_ok(prefix, faces, i + 1);
        assert(faces[i].artwork_url is Some);
        let u = faces[i].artwork_url->0;
        assert(seq![FaceV { prefix: face_prefix(prefix, i as nat), name: faces[i].name@, url: u@ }]
            + Seq::new(
            (faces.len() - i - 1) as nat,
            |t: int|
                FaceV {
                    prefix: face_prefix(prefix, (i + 1 + t) as nat),
                    name: faces[i + 1 + t].name@,
                    url: faces[i + 1 + t].artwork_url->0@,
                },
        ) =~= Seq::new(
            (faces.len() - i) as nat,
            |t: int|
                FaceV {
                    prefix: face_prefix(prefix, (i + t) as nat),
                    name: faces[i + t].name@,
                    url: faces[i + t].artwork_url->0@,
                },
        ));
    }
}

proof fn lemma_faces_err(prefix: Seq<char>, faces: Seq<CardFace>, i: int, m: int)
    requires
        0 <= i <= m < faces.len(),
        forall|j: int| i <= j < m ==> (#[trigger] faces[j]).artwork_url is Some,
        faces[m].artwork_url is None,
    ensures
        faces_spec(prefix, faces, i) == Err::<Seq<FaceV>, ErrV>(
            ErrV::MissingArtwork { name: faces[m].name@ },
        ),
    decreases m - i,
{
    if i < m {
        lemma_faces_err(prefix, faces, i + 1, m);
    }
}

/// Expands one resolved card into the descriptors of its faces, under the
/// instance's ordinal prefix. Exactly one descriptor, named after the
/// card, for a `Normal` card; one per database face, in the database's
/// order, for a `ModalDfc` or `Transform` card; `UnsupportedLayout` naming
/// card and layout otherwise; `MissingArtwork` naming the first face that
/// has no artwork reference, or the card itself when it declares no faces
/// or no artwork at all.
pub fn resolve_faces(prefix: &str, card: &CardData) -> (r: Result<
    Vec<FaceDescriptor>,
    PipelineError,
>)
    ensures
        faces_view(r) == resolve_spec(prefix@, *card),
{
    match &card.layout {
        CardLayout::Normal => {
            match &card.artwork_url {
                None => Err(PipelineError::MissingArtwork { name: card.name.clone() }),
                Some(u) => {
                    let mut v: Vec<FaceDescriptor> = Vec::new();
                    v.push(
                        FaceDescriptor {
                            prefix: prefix.to_owned(),
                            name: card.name.clone(),
                            url: u.clone(),
                        },
                    );
                    proof {
                        assert(v@.map_values(|f: FaceDescriptor| f@) =~= seq![
                            FaceV { prefix: prefix@, name: card.name@, url: u@ },
                        ]);
                    }
                    Ok(v)
                },
            }
        },
        CardLayout::ModalDfc | CardLayout::Transform => {
            if card.faces.len() == 0 {
                return Err(PipelineError::MissingArtwork { name: card.name.clone() });
            }
            let ghost fseq = card.faces@;
            let mut v: Vec<FaceDescriptor> = Vec::new();
            let mut i: usize = 0;
            proof {
                assert(v@.map_values(|f: FaceDescriptor| f@) =~= Seq::<FaceV>::empty());
            }
            while i < card.faces.len()
                invariant
                    i <= fseq.len(),
                    forall|j: int| 0 <= j < i ==> (#[trigger] fseq[j]).artwork_url is Some,
                    v@.map_values(|f: FaceDescriptor| f@) == Seq::new(
                        i as nat,
                        |t: int|
                            FaceV {
                                prefix: face_prefix(prefix@, t as nat),
                                name: fseq[t].name@,
                                url: fseq[t].artwork_url->0@,
                            },
                    ),
                decreases fseq.len() - i,
            {
                let face = &card.faces[i];
                match &face.artwork_url {
                    None => {
                        proof {
                            lemma_faces_err(prefix@, fseq, 0, i as int);
                        }
                        return Err(PipelineError::MissingArtwork { name: face.name.clone() });
                    },
                    Some(u) => {
                        let fp = format_face_prefix(prefix, i);
                        let ghost prev = v@;
                        v.push(FaceDescriptor { prefix: fp, name: face.name.clone(), url: u.clone() });
                        proof {
                            let mapped = v@.map_values(|f: FaceDescriptor| f@);
                            let whole = Seq::new(
                                (i + 1) as nat,
                                |t: int|
                                    FaceV {
                                        prefix: face_prefix(prefix@, t as nat),
                                        name: fseq[t].name@,
                                        url: fseq[t].artwork_url->0@,
                                    },
                            );
                            assert(mapped.len() == whole.len());
                            assert forall|j: int| 0 <= j < mapped.len() implies #[trigger] mapped[j]
                                == whole[j] by {
                                assert(mapped[j] == v@[j]@);
                                if j < prev.len() {
                                    assert(v@[j] == prev[j]);
                                    assert(prev.map_values(|f: FaceDescriptor| f@)[j] == prev[j]@);
                                } else {
                                    assert(v@[j].prefix@ == face_prefix(prefix@, j as nat));
                                }
                            }
                            assert(mapped =~= whole);
                        }
                    },
                }
                i = i + 1;
            }
            proof {
                lemma_faces_ok(prefix@, fseq, 0);
                assert(v@.map_values(|f: FaceDescriptor| f@) =~= Seq::new(
                    (fseq.len() - 0) as nat,
                    |t: int|
                        FaceV {
                            prefix: face_prefix(prefix@, (0 + t) as nat),
                            name: fseq[0 + t].name@,
                            url: fseq[0 + t].artwork_url->0@,
                        },
                ));
            }
            Ok(v)
        },
        CardLayout::Other(l) => Err(
            PipelineError::UnsupportedLayout { name: card.name.clone(), layout: l.clone() },
        ),
    }
}

} // verus!
