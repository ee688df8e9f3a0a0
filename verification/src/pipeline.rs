//! The run plan: with every database lookup in hand, the whole decklist
//! expands into one ordered list of faces to fetch and render. The run is
//! fail-fast: the first instance that cannot be resolved fails the plan,
//! and no file is written for any instance.

use vstd::prelude::*;
use crate::card::CardData;
use crate::card::FaceDescriptor;
use crate::card::FaceV;
use crate::card::faces_view;
use crate::card::resolve_faces;
use crate::card::resolve_spec;
use crate::deck::CardInstance;
use crate::error::ErrV;
use crate::error::PipelineError;

verus! {

/// What planning yields: per instance, in decklist order, the faces its
/// card resolves to, all concatenated; or the first failure — a lookup
/// that found nothing becomes `NotFound` naming the instance, and a
/// resolution error stands as it is.
pub open spec fn plan_spec(insts: Seq<CardInstance>, looks: Seq<Option<CardData>>) -> Result<
    Seq<FaceV>,
    ErrV,
>
    decreases insts.len(),
{
    if insts.len() == 0 {
        Ok(Seq::empty())
    } else {
        match looks[0] {
            None => Err(ErrV::NotFound { prefix: insts[0].prefix@, name: insts[0].name@ }),
            Some(card) => match resolve_spec(insts[0].prefix@, card) {
                Err(e) => Err(e),
                Ok(faces) => match plan_spec(insts.drop_first(), looks.drop_first()) {
                    Err(e) => Err(e),
                    Ok(rest) => Ok(faces + rest),
                },
            },
        }
    }
}

/// Expands the whole decklist into its ordered face descriptors, one
/// lookup outcome per instance. Fail-fast: the first instance whose lookup
/// found nothing, or whose card does not resolve, fails the whole plan
/// with that instance's error.
pub fn plan_faces(instances: &Vec<CardInstance>, lookups: &Vec<Option<CardData>>) -> (r: Result<
    Vec<FaceDescriptor>,
    PipelineError,
>)
    requires
        instances@.len() == lookups@.len(),
    ensures
        faces_view(r) == plan_spec(instances@, lookups@),
{
    let mut v: Vec<FaceDescriptor> = Vec::new();
    let mut i: usize = 0;
    proof {
        assert(instances@.skip(0) =~= instances@);
        assert(lookups@.skip(0) =~= lookups@);
        assert(v@.map_values(|f: FaceDescriptor| f@) =~= Seq::<FaceV>::empty());
        match plan_spec(instances@, lookups@) {
            Ok(rest) => {
                assert(Seq::<FaceV>::empty() + rest =~= rest);
            },
            Err(e) => {},
        }
    }
    while i < instances.len()
        invariant
            i <= instances@.len(),
            match plan_spec(instances@.skip(i as int), lookups@.skip(i as int)) {
                Ok(rest) => plan_spec(instances@, lookups@) == Ok::<Seq<FaceV>, ErrV>(
                    v@.map_values(|f: FaceDescriptor| f@) + rest,
                ),
                Err(e) => plan_spec(instances@, lookups@) == Err::<Seq<FaceV>, ErrV>(e),
            },
        decreases instances@.len() - i,
    {
        proof {
            assert(instances@.skip(i as int)[0] == instances@[i as int]);
            assert(lookups@.skip(i as int)[0] == lookups@[i as int]);
            assert(instances@.skip(i as int).drop_first() =~= instances@.skip(i + 1));
            assert(lookups@.skip(i as int).drop_first() =~= lookups@.skip(i + 1));
        }
        let inst = &instances[i];
        match &lookups[i] {
            None => {
                return Err(
                    PipelineError::NotFound {
                        prefix: inst.prefix.clone(),
                        name: inst.name.clone(),
                    },
                );
            },
            Some(card) => {
                match resolve_faces(inst.prefix.as_str(), card) {
                    Err(e) => {
                        return Err(e);
                    },
                    Ok(faces) => {
                        let ghost prev = v@.map_values(|f: FaceDescriptor| f@);
                        let ghost got = faces@.map_values(|f: FaceDescriptor| f@);
                        let mut faces = faces;
                        v.append(&mut faces);
                        proof {
                            let mapped = v@.map_values(|f: FaceDescriptor| f@);
                            assert(mapped.len() == (prev + got).len());
                            assert forall|j: int| 0 <= j < mapped.len() implies #[trigger] mapped[j]
                                == (prev + got)[j] by {
                                assert(mapped[j] == v@[j]@);
                            }
                            assert(mapped =~= prev + got);
                            match plan_spec(instances@.skip(i + 1), lookups@.skip(i + 1)) {
                                Ok(rest) => {
                                    assert((prev + got) + rest =~= prev + (got + rest));
                                },
                                Err(e) => {},
                            }
                        }
                    },
                }
            },
        }
        i = i + 1;
    }
    proof {
        assert(instances@.skip(instances@.len() as int) =~= Seq::<CardInstance>::empty());
        assert(v@.map_values(|f: FaceDescriptor| f@) + Seq::<FaceV>::empty() =~= v@.map_values(
            |f: FaceDescriptor| f@,
        ));
    }
    Ok(v)
}

/// Law: a decklist of single-faced cards plans to one face per instance.
/// When every lookup found a `Normal`-layout card with artwork, the plan
/// succeeds, yields exactly as many faces as there are instances, and the
/// face at position `i` carries instance `i`'s prefix together with card
/// `i`'s name and artwork URL. With the parser's numbering law, a decklist
/// of `n` copies thus plans to `n` outputs prefixed `001` through the
/// `n`-th ordinal, in order.
pub proof fn lemma_plan_single_faced(insts: Seq<CardInstance>, looks: Seq<Option<CardData>>)
    requires
        insts.len() == looks.len(),
        forall|i: int|
            0 <= i < looks.len() ==> {
                &&& (#[trigger] looks[i]) is Some
                &&& looks[i]->0.layout is Normal
                &&& looks[i]->0.artwork_url is Some
            },
    ensures
        plan_spec(insts, looks) is Ok,
        plan_spec(insts, looks)->Ok_0.len() == insts.len(),
        forall|i: int|
            0 <= i < insts.len() ==> (#[trigger] plan_spec(insts, looks)->Ok_0[i]) == (FaceV {
                prefix: insts[i].prefix@,
                name: looks[i]->0.name@,
                url: looks[i]->0.artwork_url->0@,
            }),
    decreases insts.len(),
{
    if insts.len() == 0 {
    } else {
        let card = looks[0]->0;
        let f0 = FaceV { prefix: insts[0].prefix@, name: card.name@, url: card.artwork_url->0@ };
        assert(resolve_spec(insts[0].prefix@, card) == Ok::<Seq<FaceV>, ErrV>(seq![f0]));
        assert(forall|m: int|
            0 <= m < looks.len() - 1 ==> (#[trigger] looks.drop_first()[m]) == looks[m + 1]);
        assert(forall|m: int|
            0 <= m < insts.len() - 1 ==> (#[trigger] insts.drop_first()[m]) == insts[m + 1]);
        lemma_plan_single_faced(insts.drop_first(), looks.drop_first());
        let rest = plan_spec(insts.drop_first(), looks.drop_first())->Ok_0;
        let whole = plan_spec(insts, looks)->Ok_0;
        assert(whole == seq![f0] + rest);
        assert forall|i: int| 0 <= i < insts.len() implies (#[trigger] whole[i]) == (FaceV {
            prefix: insts[i].prefix@,
            name: looks[i]->0.name@,
            url: looks[i]->0.artwork_url->0@,
        }) by {
            if i > 0 {
                assert(whole[i] == rest[i - 1]);
            }
        }
    }
}

/// Law: failure is fail-fast and names its culprit. When every instance
/// before position `j` resolves, and the lookup of instance `j` found
/// nothing, the whole plan fails with `NotFound` carrying instance `j`'s
/// prefix and name — the siblings' work is not written.
pub proof fn lemma_plan_fail_fast(insts: Seq<CardInstance>, looks: Seq<Option<CardData>>, j: int)
    requires
        insts.len() == looks.len(),
        0 <= j < insts.len(),
        looks[j] is None,
        forall|m: int|
            0 <= m < j ==> (#[trigger] looks[m]) is Some && resolve_spec(
                insts[m].prefix@,
                looks[m]->0,
            ) is Ok,
    ensures
        plan_spec(insts, looks) == Err::<Seq<FaceV>, ErrV>(
            ErrV::NotFound { prefix: insts[j].prefix@, name: insts[j].name@ },
        ),
    decreases j,
{
    if j == 0 {
    } else {
        assert(looks[0] is Some);
        assert(insts.drop_first().len() == looks.drop_first().len());
        assert(forall|m: int|
            0 <= m < j - 1 ==> (#[trigger] looks.drop_first()[m]) == looks[m + 1]);
        assert(forall|m: int|
            0 <= m < j - 1 ==> (#[trigger] insts.drop_first()[m]) == insts[m + 1]);
        lemma_plan_fail_fast(insts.drop_first(), looks.drop_first(), j - 1);
    }
}

} // verus!
