//! Does every master fit the core?

use crate::geometry::{Area, Rect};
use crate::model::{instance_models, Instance, InstanceModel, PlanError, PlanErrorModel};
use vstd::prelude::*;

verus! {

/// The master of `i` cannot be placed in `core`. Pads and covers belong outside the core, and a
/// master free to rotate only has to fit the larger dimension.
pub open spec fn misfit(i: InstanceModel, core: Area) -> bool {
    &&& !i.is_pad
    &&& !i.is_cover
    &&& if i.symmetry_r90 {
        (i.width > core.dx() && i.width > core.dy()) || (i.height > core.dx() && i.height
            > core.dy())
    } else {
        i.width > core.dx() || i.height > core.dy()
    }
}

/// The refusal that the first offending instance gets.
pub open spec fn first_misfit(instances: Seq<InstanceModel>, core: Area) -> Option<PlanErrorModel>
    decreases instances.len(),
{
    if instances.len() == 0 {
        None
    } else {
        match first_misfit(instances.drop_last(), core) {
            Some(e) => Some(e),
            None => {
                let i = instances.last();
                if misfit(i, core) {
                    Some(
                        PlanErrorModel::InstanceDoesNotFit {
                            name: i.name,
                            width: i.width,
                            height: i.height,
                            core,
                        },
                    )
                } else {
                    None
                }
            },
        }
    }
}

fn is_misfit(i: &Instance, core: Rect) -> (r: bool)
    ensures
        r == misfit(i@, core@),
{
    if i.is_pad || i.is_cover {
        return false;
    }
    let dx: i64 = core.wide_dx();
    let dy: i64 = core.wide_dy();
    let width: i64 = i.width as i64;
    let height: i64 = i.height as i64;
    if i.symmetry_r90 {
        let max_d: i64 = if dx > dy {
            dx
        } else {
            dy
        };
        width > max_d || height > max_d
    } else {
        width > dx || height > dy
    }
}

proof fn lemma_misfit_stays(instances: Seq<InstanceModel>, core: Area, k: int)
    requires
        0 <= k <= instances.len(),
        first_misfit(instances.take(k), core) is Some,
    ensures
        first_misfit(instances, core) == first_misfit(instances.take(k), core),
    decreases instances.len() - k,
{
    if k < instances.len() {
        assert(instances.take(k + 1).drop_last() =~= instances.take(k));
        lemma_misfit_stays(instances, core, k + 1);
    } else {
        assert(instances.take(k) =~= instances);
    }
}

/// Refuse a core too small to hold one of the design's masters (IFP-0002).
///
/// The core checked is the one as asked for, before any site-grid snapping, and the first
/// offender is reported.
pub fn check_instance_dimensions(instances: &[Instance], core: Rect) -> (r: Result<(), PlanError>)
    ensures
        match r {
            Ok(()) => first_misfit(instance_models(instances@), core@) is None,
            Err(e) => first_misfit(instance_models(instances@), core@) == Some(e@),
        },
{
    let mut k: usize = 0;
    while k < instances.len()
        invariant
            k <= instances@.len(),
            first_misfit(instance_models(instances@).take(k as int), core@) is None,
        decreases instances.len() - k,
    {
        let i = &instances[k];
        let ghost models = instance_models(instances@);
        assert(models.take(k + 1).drop_last() =~= models.take(k as int));
        assert(models.take(k + 1).last() == i@);
        if is_misfit(i, core) {
            proof {
                lemma_misfit_stays(models, core@, k + 1);
            }
            return Err(
                PlanError::InstanceDoesNotFit {
                    name: i.name.clone(),
                    width: i.width,
                    height: i.height,
                    core,
                },
            );
        }
        k = k + 1;
    }
    assert(instance_models(instances@).take(instances@.len() as int) =~= instance_models(
        instances@,
    ));
    Ok(())
}

proof fn lemma_misfit_somewhere(instances: Seq<InstanceModel>, core: Area)
    ensures
        first_misfit(instances, core) is Some <==> exists|k: int|
            0 <= k < instances.len() && misfit(#[trigger] instances[k], core),
    decreases instances.len(),
{
    if instances.len() > 0 {
        let rest = instances.drop_last();
        lemma_misfit_somewhere(rest, core);
        if exists|k: int| 0 <= k < rest.len() && misfit(#[trigger] rest[k], core) {
            let k = choose|k: int| 0 <= k < rest.len() && misfit(#[trigger] rest[k], core);
            assert(misfit(instances[k], core));
        }
        if misfit(instances.last(), core) {
            assert(misfit(instances[instances.len() - 1], core));
        }
        if exists|k: int| 0 <= k < instances.len() && misfit(#[trigger] instances[k], core) {
            let k = choose|k: int|
                0 <= k < instances.len() && misfit(#[trigger] instances[k], core);
            if k < rest.len() {
                assert(misfit(rest[k], core));
            }
        }
    }
}

/// A core is refused exactly when some master does not fit it. Whatever pads and covers there
/// are, taking them away changes nothing.
pub proof fn law_only_a_misfit_is_refused(instances: Seq<InstanceModel>, core: Area)
    ensures
        first_misfit(instances, core) is Some <==> exists|k: int|
            0 <= k < instances.len() && misfit(#[trigger] instances[k], core),
        first_misfit(instances, core) == first_misfit(
            instances.filter(|i: InstanceModel| !i.is_pad && !i.is_cover),
            core,
        ),
    decreases instances.len(),
{
    lemma_misfit_somewhere(instances, core);
    reveal(Seq::filter);
    if instances.len() > 0 {
        law_only_a_misfit_is_refused(instances.drop_last(), core);
        let p = |i: InstanceModel| !i.is_pad && !i.is_cover;
        let kept = instances.drop_last().filter(p);
        assert(kept.push(instances.last()).drop_last() =~= kept);
    }
}

/// Freedom to rotate never makes a fitting master a misfit, and does not help one that is larger
/// than both dimensions.
pub proof fn law_rotation_only_helps(i: InstanceModel, core: Area)
    ensures
        misfit(InstanceModel { symmetry_r90: true, ..i }, core) ==> misfit(
            InstanceModel { symmetry_r90: false, ..i },
            core,
        ),
        !i.is_pad && !i.is_cover && i.width > core.dx() && i.width > core.dy() ==> misfit(i, core),
        !i.is_pad && !i.is_cover && i.height > core.dx() && i.height > core.dy() ==> misfit(
            i,
            core,
        ),
{
}

/// A master fits where its width is within the core's and its height within the core's; one that is
/// free to rotate where either is within the larger of the two. Pads and covers always fit.
pub proof fn law_what_fits(i: InstanceModel, core: Area)
    ensures
        ({
            let dx = core.x_max - core.x_min;
            let dy = core.y_max - core.y_min;
            let larger = if dx >= dy {
                dx
            } else {
                dy
            };
            !misfit(i, core) <==> {
                ||| i.is_pad
                ||| i.is_cover
                ||| !i.symmetry_r90 && i.width <= dx && i.height <= dy
                ||| i.symmetry_r90 && i.width <= larger && i.height <= larger
            }
        }),
{
}

/// The refusal names the first instance that does not fit, and says its size and the core.
pub proof fn law_the_first_misfit_is_named(instances: Seq<InstanceModel>, core: Area, k: int)
    requires
        0 <= k < instances.len(),
        misfit(instances[k], core),
        forall|j: int| 0 <= j < k ==> !misfit(#[trigger] instances[j], core),
    ensures
        first_misfit(instances, core) == Some(
            PlanErrorModel::InstanceDoesNotFit {
                name: instances[k].name,
                width: instances[k].width,
                height: instances[k].height,
                core,
            },
        ),
    decreases instances.len(),
{
    let rest = instances.drop_last();
    if k < rest.len() {
        assert(rest[k] == instances[k]);
        assert forall|j: int| 0 <= j < k implies !misfit(#[trigger] rest[j], core) by {
            assert(rest[j] == instances[j]);
        }
        law_the_first_misfit_is_named(rest, core, k);
    } else {
        lemma_misfit_somewhere(rest, core);
        if first_misfit(rest, core) is Some {
            let j = choose|j: int| 0 <= j < rest.len() && misfit(#[trigger] rest[j], core);
            assert(misfit(instances[j], core));
        }
    }
}

} // verus!
