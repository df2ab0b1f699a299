//! What holds of the background effect protocol across requests.

use crate::background_effect::{
    effects_after, effects_without, refusal, requested_type, stored_after,
    BackgroundEffectHandler, BackgroundEffectManagerState, BackgroundEffectState, CreateGlobal, EffectId, EffectRequest,
    Error, ManagerAction, ManagerRequest, SurfaceBackgroundEffectState, SurfaceChange, SurfaceId,
    SurfaceRoles, SurfaceUpdate,
};
use vstd::prelude::*;

verus! {

/// The request that makes an effect object.
pub open spec fn get_effect(id: EffectId, surface: SurfaceId) -> ManagerRequest {
    ManagerRequest::GetBackgroundEffect { id, surface }
}

/// The effect that a surface shows: none where no state is stored with it.
pub open spec fn shown(stored: Option<Option<Seq<char>>>) -> Option<Seq<char>> {
    match stored {
        Some(effect_type) => effect_type,
        None => None,
    }
}

/// A refused request changes nothing.
pub proof fn law_refusal_changes_nothing(
    effects: Map<SurfaceId, EffectId>,
    request: ManagerRequest,
    roles: SurfaceRoles,
)
    requires
        refusal(effects, request, roles) is Some,
    ensures
        effects_after(effects, request, roles) == effects,
{
}

/// A surface has one effect object at a time: once it has one, every further request
/// for one is refused as such, whatever the surface's roles are by then.
pub proof fn law_one_effect_per_surface(
    effects: Map<SurfaceId, EffectId>,
    first: EffectId,
    second: EffectId,
    surface: SurfaceId,
    roles: SurfaceRoles,
    later_roles: SurfaceRoles,
)
    requires
        refusal(effects, get_effect(first, surface), roles) is None,
    ensures
        refusal(
            effects_after(effects, get_effect(first, surface), roles),
            get_effect(second, surface),
            later_roles,
        ) == Some(Error::BackgroundEffectExists),
{
}

/// Only a valid surface comes to have an effect object.
pub proof fn law_only_valid_surfaces_gain_effects(
    effects: Map<SurfaceId, EffectId>,
    request: ManagerRequest,
    roles: SurfaceRoles,
    surface: SurfaceId,
)
    requires
        !effects.contains_key(surface),
        effects_after(effects, request, roles).contains_key(surface),
    ensures
        roles.valid(),
        exists|id: EffectId| request == get_effect(id, surface),
{
    let id = request->id;
    assert(request == get_effect(id, surface));
}

/// Destroying an effect object undoes its creation.
pub proof fn law_destroying_undoes_creating(
    effects: Map<SurfaceId, EffectId>,
    id: EffectId,
    surface: SurfaceId,
    roles: SurfaceRoles,
)
    requires
        refusal(effects, get_effect(id, surface), roles) is None,
    ensures
        effects_without(
            effects_after(effects, get_effect(id, surface), roles),
            id,
            BackgroundEffectState { surface },
        ) == effects,
{
    assert(effects.insert(surface, id).remove(surface) =~= effects);
}

/// Once its effect object is destroyed, or the surface is reported destroyed, a valid
/// surface can be given an effect object again.
pub proof fn law_surface_can_start_over(
    effects: Map<SurfaceId, EffectId>,
    id: EffectId,
    surface: SurfaceId,
    roles: SurfaceRoles,
)
    requires
        roles.valid(),
    ensures
        refusal(effects.remove(surface), get_effect(id, surface), roles) is None,
        effects.contains_key(surface) ==> refusal(
            effects_without(effects, effects[surface], BackgroundEffectState { surface }),
            get_effect(id, surface),
            roles,
        ) is None,
{
}

/// An effect object that is no longer the one of its surface takes nothing with it.
pub proof fn law_stale_effect_takes_nothing(
    effects: Map<SurfaceId, EffectId>,
    stale: EffectId,
    current: EffectId,
    surface: SurfaceId,
    roles: SurfaceRoles,
)
    requires
        stale != current,
        roles.valid(),
    ensures
        ({
            let replaced = effects_after(
                effects.remove(surface),
                get_effect(current, surface),
                roles,
            );
            &&& replaced.contains_key(surface)
            &&& replaced[surface] == current
            &&& effects_without(replaced, stale, BackgroundEffectState { surface }) == replaced
        }),
{
}

/// What happens to one surface leaves the effect objects of the others alone.
pub proof fn law_other_surfaces_keep_their_effects(
    effects: Map<SurfaceId, EffectId>,
    id: EffectId,
    surface: SurfaceId,
    roles: SurfaceRoles,
    other: SurfaceId,
)
    requires
        other != surface,
    ensures
        ({
            let made = effects_after(effects, get_effect(id, surface), roles);
            let gone = effects_without(effects, id, BackgroundEffectState { surface });
            let removed = effects.remove(surface);
            &&& made.contains_key(other) == effects.contains_key(other)
            &&& gone.contains_key(other) == effects.contains_key(other)
            &&& removed.contains_key(other) == effects.contains_key(other)
            &&& effects.contains_key(other) ==> {
                &&& made[other] == effects[other]
                &&& gone[other] == effects[other]
                &&& removed[other] == effects[other]
            }
        }),
{
}

/// Destroying the manager object leaves every effect object in place.
pub proof fn law_effects_outlive_the_manager(
    effects: Map<SurfaceId, EffectId>,
    roles: SurfaceRoles,
)
    ensures
        refusal(effects, ManagerRequest::Destroy, roles) is None,
        effects_after(effects, ManagerRequest::Destroy, roles) == effects,
{
}

/// As long as every new effect object has an identity of its own, no object belongs to
/// two surfaces.
pub proof fn law_effects_stay_distinct(
    effects: Map<SurfaceId, EffectId>,
    id: EffectId,
    surface: SurfaceId,
    roles: SurfaceRoles,
)
    requires
        effects.is_injective(),
    ensures
        !effects.contains_value(id) ==> effects_after(
            effects,
            get_effect(id, surface),
            roles,
        ).is_injective(),
        effects_without(effects, id, BackgroundEffectState { surface }).is_injective(),
        effects.remove(surface).is_injective(),
{
    if !effects.contains_value(id) {
        let made = effects_after(effects, get_effect(id, surface), roles);
        assert forall|x: SurfaceId, y: SurfaceId|
            x != y && made.contains_key(x) && made.contains_key(y) implies #[trigger] made[x]
            != #[trigger] made[y] by {
            assert(effects.contains_key(x) || x == surface);
            assert(effects.contains_key(y) || y == surface);
        }
    }
}

/// What can happen to the effects that are kept.
pub enum Event {
    /// The manager got a request; the surface that it names has the given roles.
    Requested(ManagerRequest, SurfaceRoles),
    /// An effect object was destroyed.
    EffectDestroyed(EffectId, BackgroundEffectState),
    /// A surface was reported destroyed.
    SurfaceDestroyed(SurfaceId),
}

/// The effects after one event.
pub open spec fn effects_step(
    effects: Map<SurfaceId, EffectId>,
    event: Event,
) -> Map<SurfaceId, EffectId> {
    match event {
        Event::Requested(request, roles) => effects_after(effects, request, roles),
        Event::EffectDestroyed(resource, data) => effects_without(effects, resource, data),
        Event::SurfaceDestroyed(surface) => effects.remove(surface),
    }
}

/// The effects after a history of events, from none at the start.
pub open spec fn effects_of(history: Seq<Event>) -> Map<SurfaceId, EffectId>
    decreases history.len(),
{
    if history.len() == 0 {
        Map::empty()
    } else {
        effects_step(effects_of(history.drop_last()), history.last())
    }
}

/// Whether an event asks for the effect object `id` for `surface`, a valid one.
pub open spec fn grants(event: Event, id: EffectId, surface: SurfaceId) -> bool {
    event matches Event::Requested(request, roles) && request == get_effect(id, surface)
        && roles.valid()
}

/// Whether a request for an effect object uses the identity `id`.
pub open spec fn uses(event: Event, id: EffectId) -> bool {
    event matches Event::Requested(ManagerRequest::GetBackgroundEffect { id: used, .. }, _) && used
        == id
}

/// In every state, each effect object that a surface has was asked for on that surface
/// when the surface was valid.
pub proof fn law_every_effect_was_granted(history: Seq<Event>, surface: SurfaceId)
    requires
        effects_of(history).contains_key(surface),
    ensures
        exists|i: int|
            0 <= i < history.len() && grants(
                #[trigger] history[i],
                effects_of(history)[surface],
                surface,
            ),
    decreases history.len(),
{
    let before = history.drop_last();
    let id = effects_of(history)[surface];
    if effects_of(before).contains_key(surface) && effects_of(before)[surface] == id {
        law_every_effect_was_granted(before, surface);
        let i = choose|i: int| 0 <= i < before.len() && grants(#[trigger] before[i], id, surface);
        assert(history[i] == before[i]);
    } else {
        assert(grants(history[history.len() - 1], id, surface));
    }
}

/// Whether an event ends the hold of the effect object `id` on `surface`.
pub open spec fn ends(event: Event, id: EffectId, surface: SurfaceId) -> bool {
    match event {
        Event::Requested(..) => false,
        Event::EffectDestroyed(resource, data) => resource == id && data.surface == surface,
        Event::SurfaceDestroyed(destroyed) => destroyed == surface,
    }
}

/// An effect object stays with its surface until it or the surface is destroyed,
/// whatever else happens; until then every request for another one is refused.
pub proof fn law_effect_stays_until_destroyed(
    history: Seq<Event>,
    later: Seq<Event>,
    surface: SurfaceId,
)
    requires
        effects_of(history).contains_key(surface),
        forall|i: int|
            0 <= i < later.len() ==> !ends(
                #[trigger] later[i],
                effects_of(history)[surface],
                surface,
            ),
    ensures
        effects_of(history + later).contains_key(surface),
        effects_of(history + later)[surface] == effects_of(history)[surface],
        forall|id: EffectId, roles: SurfaceRoles|
            #[trigger] refusal(effects_of(history + later), get_effect(id, surface), roles)
                == Some(Error::BackgroundEffectExists),
    decreases later.len(),
{
    if later.len() == 0 {
        assert(history + later =~= history);
    } else {
        let rest = later.drop_last();
        assert forall|i: int| 0 <= i < rest.len() implies !ends(
            #[trigger] rest[i],
            effects_of(history)[surface],
            surface,
        ) by {
            assert(rest[i] == later[i]);
        }
        law_effect_stays_until_destroyed(history, rest, surface);
        assert((history + later).drop_last() =~= history + rest);
        assert((history + later).last() == later[later.len() - 1]);
    }
}

/// In every state, no effect object belongs to two surfaces, provided that no identity
/// was used for two objects.
pub proof fn law_every_effect_has_one_surface(history: Seq<Event>)
    requires
        forall|i: int, j: int, id: EffectId|
            0 <= i < j < history.len() && uses(#[trigger] history[i], id) ==> !(#[trigger] uses(
                #[trigger] history[j],
                id,
            )),
    ensures
        effects_of(history).is_injective(),
    decreases history.len(),
{
    if history.len() > 0 {
        let before = history.drop_last();
        let effects = effects_of(before);
        assert forall|i: int, j: int, id: EffectId|
            0 <= i < j < before.len() && uses(#[trigger] before[i], id) implies !(#[trigger] uses(
            #[trigger] before[j],
            id,
        )) by {
            assert(before[i] == history[i] && before[j] == history[j]);
        }
        law_every_effect_has_one_surface(before);
        let any_roles = SurfaceRoles {
            xdg_toplevel: true,
            xdg_popup: true,
            layer_surface: true,
            lock_surface: true,
        };
        match history.last() {
            Event::Requested(ManagerRequest::GetBackgroundEffect { id, surface }, roles) => {
                if effects.contains_value(id) {
                    let s = choose|s: SurfaceId| effects.contains_key(s) && #[trigger] effects[s] == id;
                    law_every_effect_was_granted(before, s);
                    let i = choose|i: int|
                        0 <= i < before.len() && grants(#[trigger] before[i], effects[s], s);
                    assert(uses(history[i], id));
                    assert(uses(history[history.len() - 1], id));
                }
                law_effects_stay_distinct(effects, id, surface, roles);
            },
            Event::Requested(ManagerRequest::Destroy, roles) => {},
            Event::EffectDestroyed(resource, data) => {
                law_effects_stay_distinct(effects, resource, data.surface, any_roles);
            },
            Event::SurfaceDestroyed(surface) => {
                law_effects_stay_distinct(effects, 0, surface, any_roles);
            },
        }
    }
}

/// A surface shows the effect that it was last given; "none" takes the effect away.
pub proof fn law_last_effect_shows(
    stored: Option<Option<Seq<char>>>,
    earlier: Option<Option<Seq<char>>>,
    effect: Seq<char>,
)
    ensures
        ({
            let after = stored_after(
                stored_after(stored, earlier),
                Some(requested_type(effect)),
            );
            &&& after is Some
            &&& effect != "none"@ ==> shown(after) == Some(effect)
            &&& effect == "none"@ ==> shown(after) is None
        }),
{
}

/// What the compositor stores with its surfaces, after a change to one of them.
pub open spec fn stores_after(
    stores: Map<SurfaceId, Option<Seq<char>>>,
    surface: SurfaceId,
    change: Option<Option<Seq<char>>>,
) -> Map<SurfaceId, Option<Seq<char>>> {
    let stored = if stores.contains_key(surface) {
        Some(stores[surface])
    } else {
        None
    };
    match stored_after(stored, change) {
        Some(effect_type) => stores.insert(surface, effect_type),
        None => stores.remove(surface),
    }
}

/// A change to one surface leaves what is stored with the others alone; and clearing
/// the effect of a surface that nothing is stored with leaves everything alone.
pub proof fn law_changes_touch_one_surface(
    stores: Map<SurfaceId, Option<Seq<char>>>,
    surface: SurfaceId,
    change: Option<Option<Seq<char>>>,
    other: SurfaceId,
)
    requires
        other != surface,
    ensures
        stores_after(stores, surface, change).contains_key(other) == stores.contains_key(other),
        stores.contains_key(other) ==> stores_after(stores, surface, change)[other]
            == stores[other],
        !stores.contains_key(surface) ==> stores_after(stores, surface, None) == stores,
{
    if !stores.contains_key(surface) {
        assert(stores.remove(surface) =~= stores);
    }
}

/// A surface shows no effect after its effect object is gone, and no state is stored
/// with a surface that had none.
pub proof fn law_no_effect_after_destruction(stored: Option<Option<Seq<char>>>)
    ensures
        shown(stored_after(stored, None)) is None,
        stored_after(stored, None) is Some <==> stored is Some,
        stored_after(stored_after(stored, None), None) == stored_after(stored, None),
{
}

/// The manager starts without effects, and its global is advertised in the first version,
/// to the clients that the filter lets through.
pub proof fn law_manager_starts_empty<C, F: Fn(&C) -> bool>(
    filter: F,
    r: (BackgroundEffectManagerState, CreateGlobal<F>),
    client: C,
    seen: bool,
    surface: SurfaceId,
)
    requires
        call_ensures(BackgroundEffectManagerState::new::<F>, (filter,), r),
        call_requires(filter, (&client,)),
        call_ensures(BackgroundEffectManagerState::can_view::<C, F>, (client, &r.1.data), seen),
    ensures
        !r.0@.contains_key(surface),
        r.1.version == 1,
        call_ensures(filter, (&client,), seen),
{
}

/// A surface can have an effect if it is a toplevel, a popup, a layer surface or a lock
/// surface: each role is enough, and without one it cannot.
pub proof fn law_any_role_makes_a_surface_valid(roles: SurfaceRoles, valid: bool)
    requires
        call_ensures(BackgroundEffectManagerState::is_valid_surface, (&roles,), valid),
    ensures
        roles.xdg_toplevel ==> valid,
        roles.xdg_popup ==> valid,
        roles.layer_surface ==> valid,
        roles.lock_surface ==> valid,
        valid ==> roles.xdg_toplevel || roles.xdg_popup || roles.layer_surface
            || roles.lock_surface,
        roles.valid() == valid,
{
}

/// Whether `action` posts the error, with the words that go with it.
pub open spec fn posts(action: ManagerAction, expected: Error) -> bool {
    action matches ManagerAction::PostError { error, message } && error == expected && message@
        == match expected {
        Error::BackgroundEffectExists => "surface already has a background effect object"@,
        Error::InvalidSurface => "surface is not a valid surface for background effects"@,
    }
}

/// A request for an effect is refused where the surface has one, whatever its roles, and
/// where it has no role that can have one. Else the object is initialised for the
/// surface, which has it from then on. No other surface is touched, nor any at all by a
/// refusal or when the manager object goes.
pub proof fn law_request_is_answered(
    before: BackgroundEffectManagerState,
    after: BackgroundEffectManagerState,
    request: ManagerRequest,
    roles: SurfaceRoles,
    action: ManagerAction,
    any: SurfaceId,
)
    requires
        exists|manager: &mut BackgroundEffectManagerState|
            *manager == before && *final(manager) == after && #[trigger] call_ensures(
                BackgroundEffectManagerState::request,
                (manager, request, &roles),
                action,
            ),
    ensures
        match request {
            ManagerRequest::GetBackgroundEffect { id, surface } => {
                let known = before@.contains_key(surface);
                let role = roles.xdg_toplevel || roles.xdg_popup || roles.layer_surface
                    || roles.lock_surface;
                &&& known ==> posts(action, Error::BackgroundEffectExists)
                &&& !known && !role ==> posts(action, Error::InvalidSurface)
                &&& !known && role ==> {
                    &&& action matches ManagerAction::InitEffect { id: made, data }
                    &&& made == id
                    &&& data.surface == surface
                    &&& after@.contains_key(surface)
                    &&& after@[surface] == id
                }
                &&& known || !role ==> after@ == before@
                &&& any != surface ==> after@.contains_key(any) == before@.contains_key(any)
                &&& any != surface && before@.contains_key(any) ==> after@[any] == before@[any]
            },
            ManagerRequest::Destroy => action is Nothing && after@ == before@,
        },
        after@ == effects_after(before@, request, roles),
{
}

/// A surface that is reported destroyed has no effect any more, and no other is touched.
pub proof fn law_destroyed_surface_is_forgotten(
    before: BackgroundEffectManagerState,
    after: BackgroundEffectManagerState,
    surface: SurfaceId,
    any: SurfaceId,
)
    requires
        exists|manager: &mut BackgroundEffectManagerState|
            *manager == before && *final(manager) == after && #[trigger] call_ensures(
                BackgroundEffectManagerState::surface_destroyed,
                (manager, surface),
                (),
            ),
    ensures
        !after@.contains_key(surface),
        any != surface ==> after@.contains_key(any) == before@.contains_key(any),
        any != surface && before@.contains_key(any) ==> after@[any] == before@[any],
{
}

/// An effect object that goes is forgotten where it is the one of its surface, and only
/// there. Either way the surface that it was made for loses its effect: where a state is
/// stored with it, the state has no effect type from then on, and where none is, none is
/// stored.
pub proof fn law_destroyed_effect_is_forgotten(
    before: BackgroundEffectManagerState,
    after: BackgroundEffectManagerState,
    resource: EffectId,
    data: BackgroundEffectState,
    update: SurfaceUpdate,
    slot: Option<SurfaceBackgroundEffectState>,
    changed: Option<SurfaceBackgroundEffectState>,
    any: SurfaceId,
)
    requires
        exists|manager: &mut BackgroundEffectManagerState|
            *manager == before && *final(manager) == after && #[trigger] call_ensures(
                BackgroundEffectManagerState::destroyed,
                (manager, resource, &data),
                update,
            ),
        exists|state: &mut Option<SurfaceBackgroundEffectState>|
            *state == slot && *final(state) == changed && #[trigger] call_ensures(
                SurfaceChange::apply,
                (update.change, state),
                (),
            ),
    ensures
        ({
            let own = before@.contains_key(data.surface) && before@[data.surface] == resource;
            &&& own ==> !after@.contains_key(data.surface)
            &&& !own ==> after@ == before@
            &&& any != data.surface ==> after@.contains_key(any) == before@.contains_key(any)
            &&& any != data.surface && before@.contains_key(any) ==> after@[any] == before@[any]
        }),
        update.surface == data.surface,
        slot is None ==> changed is None,
        slot is Some ==> (changed matches Some(state) && state.effect_type is None),
        after@ == effects_without(before@, resource, data),
{
}

/// An effect that an object asks for is stored with the surface that the object was made
/// for, in place of what was stored before; "none" stores that there is no effect.
/// Destroying the object asks for nothing.
pub proof fn law_requested_effect_is_stored(
    data: BackgroundEffectState,
    request: EffectRequest,
    update: Option<SurfaceUpdate>,
    slot: Option<SurfaceBackgroundEffectState>,
    changed: Option<SurfaceBackgroundEffectState>,
)
    requires
        call_ensures(BackgroundEffectManagerState::effect_request, (&data, request), update),
        update matches Some(u) ==> exists|state: &mut Option<SurfaceBackgroundEffectState>|
            *state == slot && *final(state) == changed && #[trigger] call_ensures(
                SurfaceChange::apply,
                (u.change, state),
                (),
            ),
    ensures
        match request {
            EffectRequest::SetEffect { effect } => {
                &&& update matches Some(u)
                &&& u.surface == data.surface
                &&& changed matches Some(state)
                &&& effect@ == "none"@ ==> state.effect_type is None
                &&& effect@ != "none"@ ==> (state.effect_type matches Some(name) && name@ == effect@)
            },
            EffectRequest::Destroy => update is None,
        },
{
}

/// Every error has words of its own.
pub proof fn law_errors_are_told_apart(error: Error, other: Error, words: String, others: String)
    requires
        call_ensures(Error::message, (error,), words),
        call_ensures(Error::message, (other,), others),
    ensures
        words@ == others@ <==> error == other,
        words@.len() > 0,
{
    reveal_strlit("surface already has a background effect object");
    reveal_strlit("surface is not a valid surface for background effects");
    assert("surface already has a background effect object"@[8]
        != "surface is not a valid surface for background effects"@[8]);
}

/// The state that a manager's state holds is itself: what is read through it is what is
/// there, and what is written through it stays.
pub proof fn law_manager_holds_its_own_state(
    before: BackgroundEffectManagerState,
    read: BackgroundEffectManagerState,
    written: BackgroundEffectManagerState,
    after: BackgroundEffectManagerState,
)
    requires
        exists|manager: &mut BackgroundEffectManagerState, held: &mut BackgroundEffectManagerState|
            *manager == before && *final(manager) == after && *held == read && *final(held)
                == written && #[trigger] call_ensures(
                <BackgroundEffectManagerState as BackgroundEffectHandler>::background_effect_manager_state,
                (manager,),
                held,
            ),
    ensures
        read == before,
        after == written,
{
}

/// A surface that was given nothing has no effect.
pub proof fn law_default_state_has_no_effect(state: SurfaceBackgroundEffectState)
    requires
        call_ensures(<SurfaceBackgroundEffectState as Default>::default, (), state),
    ensures
        state.effect_type is None,
{
}

} // verus!
