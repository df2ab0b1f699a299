//! The background effect protocol, request by request.

use background_blur::background_effect::{
    BackgroundEffectHandler, BackgroundEffectManagerGlobalData, BackgroundEffectManagerState,
    BackgroundEffectState, EffectRequest, Error, ManagerAction, ManagerRequest, SurfaceBackgroundEffectState,
    SurfaceChange, SurfaceRoles, VERSION,
};

/// A compositor with more to it than the manager's state.
struct Compositor {
    manager: BackgroundEffectManagerState,
    outputs: u32,
}

impl BackgroundEffectHandler for Compositor {
    fn background_effect_manager_state(&mut self) -> &mut BackgroundEffectManagerState {
        &mut self.manager
    }
}

fn compositor() -> Compositor {
    let (manager, _) = BackgroundEffectManagerState::new(|_: &u32| true);
    Compositor { manager, outputs: 2 }
}

const NO_ROLE: SurfaceRoles =
    SurfaceRoles { xdg_toplevel: false, xdg_popup: false, layer_surface: false, lock_surface: false };
const XDG: SurfaceRoles = SurfaceRoles { xdg_toplevel: true, ..NO_ROLE };
const POPUP: SurfaceRoles = SurfaceRoles { xdg_popup: true, ..NO_ROLE };
const LAYER: SurfaceRoles = SurfaceRoles { layer_surface: true, ..NO_ROLE };
const LOCK: SurfaceRoles = SurfaceRoles { lock_surface: true, ..NO_ROLE };

fn get(state: &mut Compositor, id: u64, surface: u64, roles: SurfaceRoles) -> ManagerAction {
    state.background_effect_manager_state().request(ManagerRequest::GetBackgroundEffect { id, surface }, &roles)
}

fn accepted(action: ManagerAction, id: u64, surface: u64) -> bool {
    matches!(action, ManagerAction::InitEffect { id: i, data } if i == id && data == BackgroundEffectState { surface })
}

fn refused(action: ManagerAction, reason: Error, text: &str) -> bool {
    matches!(action, ManagerAction::PostError { error, message } if error == reason && message == text)
}

fn already(action: ManagerAction) -> bool {
    refused(action, Error::BackgroundEffectExists, "surface already has a background effect object")
}

fn invalid(action: ManagerAction) -> bool {
    refused(action, Error::InvalidSurface, "surface is not a valid surface for background effects")
}

#[test]
fn global_is_advertised_in_version_one_with_the_filter() {
    let (_, global) = BackgroundEffectManagerState::new(|client: &u32| *client == 7);
    assert_eq!(VERSION, 1);
    assert_eq!(global.version, 1);
    assert!(BackgroundEffectManagerState::can_view(7u32, &global.data));
    assert!(!BackgroundEffectManagerState::can_view(8u32, &global.data));
}

#[test]
fn filter_may_be_boxed() {
    let filter: Box<dyn Fn(&String) -> bool + Send + Sync> = Box::new(|name: &String| name == "trusted");
    let data = BackgroundEffectManagerGlobalData { filter };
    assert!(BackgroundEffectManagerState::can_view("trusted".to_string(), &data));
    assert!(!BackgroundEffectManagerState::can_view("other".to_string(), &data));
}

#[test]
fn surfaces_with_a_known_role_are_valid() {
    assert!(BackgroundEffectManagerState::is_valid_surface(&XDG));
    assert!(BackgroundEffectManagerState::is_valid_surface(&POPUP));
    assert!(BackgroundEffectManagerState::is_valid_surface(&LAYER));
    assert!(BackgroundEffectManagerState::is_valid_surface(&LOCK));
    assert!(!BackgroundEffectManagerState::is_valid_surface(&NO_ROLE));
}

#[test]
fn effect_is_made_for_a_valid_surface() {
    let mut state = compositor();
    assert!(accepted(get(&mut state, 10, 1, XDG), 10, 1));
    assert!(accepted(get(&mut state, 11, 2, LAYER), 11, 2));
    assert!(accepted(get(&mut state, 12, 3, LOCK), 12, 3));
    assert_eq!(state.outputs, 2);
}

#[test]
fn second_effect_is_refused_before_the_roles_are_looked_at() {
    let mut state = compositor();
    assert!(accepted(get(&mut state, 10, 1, XDG), 10, 1));
    assert!(already(get(&mut state, 11, 1, XDG)));
    assert!(already(get(&mut state, 12, 1, NO_ROLE)));
}

#[test]
fn invalid_surface_is_refused_and_not_kept() {
    let mut state = compositor();
    assert!(invalid(get(&mut state, 10, 1, NO_ROLE)));
    assert!(invalid(get(&mut state, 11, 1, NO_ROLE)));
    assert!(accepted(get(&mut state, 12, 1, LAYER), 12, 1));
}

#[test]
fn destroying_the_manager_keeps_the_effects() {
    let mut state = compositor();
    assert!(accepted(get(&mut state, 10, 1, XDG), 10, 1));
    let action = state.background_effect_manager_state().request(ManagerRequest::Destroy, &NO_ROLE);
    assert!(matches!(action, ManagerAction::Nothing));
    assert!(already(get(&mut state, 11, 1, XDG)));
}

#[test]
fn destroying_the_effect_frees_its_surface_only() {
    let mut state = compositor();
    assert!(accepted(get(&mut state, 10, 1, XDG), 10, 1));
    assert!(accepted(get(&mut state, 20, 2, XDG), 20, 2));
    let update = state.manager.destroyed(10, &BackgroundEffectState { surface: 1 });
    assert_eq!(update.surface, 1);
    assert!(matches!(update.change, SurfaceChange::ClearEffectType));
    assert!(already(get(&mut state, 21, 2, XDG)));
    assert!(accepted(get(&mut state, 11, 1, XDG), 11, 1));
}

#[test]
fn stale_effect_does_not_free_the_surface() {
    let mut state = compositor();
    assert!(accepted(get(&mut state, 10, 1, XDG), 10, 1));
    state.manager.surface_destroyed(1);
    assert!(accepted(get(&mut state, 11, 1, XDG), 11, 1));
    let update = state.manager.destroyed(10, &BackgroundEffectState { surface: 1 });
    assert_eq!(update.surface, 1);
    assert!(matches!(update.change, SurfaceChange::ClearEffectType));
    assert!(already(get(&mut state, 12, 1, XDG)));
}

#[test]
fn destroyed_surface_is_forgotten() {
    let mut state = compositor();
    assert!(accepted(get(&mut state, 10, 1, XDG), 10, 1));
    assert!(accepted(get(&mut state, 20, 2, XDG), 20, 2));
    state.manager.surface_destroyed(1);
    state.manager.surface_destroyed(99);
    assert!(already(get(&mut state, 21, 2, XDG)));
    assert!(accepted(get(&mut state, 11, 1, XDG), 11, 1));
}

#[test]
fn state_alone_is_a_handler() {
    let (mut manager, _) = BackgroundEffectManagerState::new(|_: &u32| true);
    let request = ManagerRequest::GetBackgroundEffect { id: 5, surface: 6 };
    assert!(accepted(manager.background_effect_manager_state().request(request, &XDG), 5, 6));
    assert!(already(manager.background_effect_manager_state().request(request, &XDG)));
}

fn set(slot: &mut Option<SurfaceBackgroundEffectState>, effect: &str) {
    let data = BackgroundEffectState { surface: 4 };
    let request = EffectRequest::SetEffect { effect: effect.to_string() };
    let update = BackgroundEffectManagerState::effect_request(&data, request).unwrap();
    assert_eq!(update.surface, 4);
    update.change.apply(slot);
}

fn shown(slot: &Option<SurfaceBackgroundEffectState>) -> Option<Option<&str>> {
    slot.as_ref().map(|state| state.effect_type.as_deref())
}

#[test]
fn effect_is_stored_and_replaced() {
    let mut slot = None;
    set(&mut slot, "blur");
    assert_eq!(shown(&slot), Some(Some("blur")));
    set(&mut slot, "frost");
    assert_eq!(shown(&slot), Some(Some("frost")));
    set(&mut slot, "");
    assert_eq!(shown(&slot), Some(Some("")));
    set(&mut slot, "None");
    assert_eq!(shown(&slot), Some(Some("None")));
}

#[test]
fn none_takes_the_effect_away() {
    let mut slot = None;
    set(&mut slot, "none");
    assert_eq!(shown(&slot), Some(None));
    set(&mut slot, "blur");
    set(&mut slot, "none");
    assert_eq!(shown(&slot), Some(None));
}

#[test]
fn destroy_request_changes_no_surface() {
    let data = BackgroundEffectState { surface: 4 };
    assert!(BackgroundEffectManagerState::effect_request(&data, EffectRequest::Destroy).is_none());
}

#[test]
fn destruction_clears_the_effect_where_one_is_stored() {
    let mut slot = None;
    SurfaceChange::ClearEffectType.apply(&mut slot);
    assert_eq!(shown(&slot), None);
    set(&mut slot, "blur");
    SurfaceChange::ClearEffectType.apply(&mut slot);
    assert_eq!(shown(&slot), Some(None));
}

#[test]
fn new_surface_state_has_no_effect() {
    assert_eq!(SurfaceBackgroundEffectState::default().effect_type, None);
}

#[test]
fn change_to_one_surface_leaves_the_other_alone() {
    let mut slots = [None, None];
    set(&mut slots[0], "blur");
    set(&mut slots[1], "frost");
    SurfaceChange::ClearEffectType.apply(&mut slots[0]);
    assert_eq!(shown(&slots[0]), Some(None));
    assert_eq!(shown(&slots[1]), Some(Some("frost")));
}

/// An object that was never granted frees nothing, whatever surface it names.
#[test]
fn effects_belong_to_the_surface_they_were_granted_for() {
    let mut state = compositor();
    assert!(accepted(get(&mut state, 10, 1, XDG), 10, 1));
    assert!(accepted(get(&mut state, 20, 2, LOCK), 20, 2));
    state.manager.destroyed(20, &BackgroundEffectState { surface: 1 });
    state.manager.destroyed(10, &BackgroundEffectState { surface: 3 });
    assert!(already(get(&mut state, 11, 1, XDG)));
    assert!(already(get(&mut state, 21, 2, LOCK)));
}

#[test]
fn effect_stays_until_it_or_its_surface_is_destroyed() {
    let mut state = compositor();
    assert!(accepted(get(&mut state, 10, 1, POPUP), 10, 1));
    state.manager.request(ManagerRequest::Destroy, &NO_ROLE);
    state.manager.destroyed(11, &BackgroundEffectState { surface: 1 });
    state.manager.surface_destroyed(2);
    assert!(already(get(&mut state, 12, 1, POPUP)));
    state.manager.destroyed(10, &BackgroundEffectState { surface: 1 });
    assert!(accepted(get(&mut state, 13, 1, POPUP), 13, 1));
}
