//! The background effect protocol: which surfaces have an effect object, how the
//! requests of clients are answered, and which effect each surface asks for.
//!
//! Wayland objects are known here by identities that the compositor hands out, each
//! once. What the compositor has to do with its objects is returned as a value.

use std::collections::HashMap;
use vstd::prelude::*;

verus! {

broadcast use vstd::std_specs::hash::group_hash_axioms;

/// The version in which the manager global is advertised.
pub const VERSION: u32 = 1;

/// The identity of a surface.
pub type SurfaceId = u64;

/// The identity of a background effect object.
pub type EffectId = u64;

/// The protocol errors of the manager.
#[derive(Clone, Copy, PartialEq, Eq, Structural, Debug)]
pub enum Error {
    /// The surface already has a background effect object.
    BackgroundEffectExists,
    /// The surface cannot have a background effect.
    InvalidSurface,
}

impl Error {
    /// The message that goes with the error.
    pub open spec fn text(self) -> Seq<char> {
        match self {
            Error::BackgroundEffectExists => "surface already has a background effect object"@,
            Error::InvalidSurface => "surface is not a valid surface for background effects"@,
        }
    }

    /// The message that goes with the error.
    pub fn message(self) -> (r: String)
        ensures
            r@ == self.text(),
    {
        match self {
            Error::BackgroundEffectExists => "surface already has a background effect object".to_owned(),
            Error::InvalidSurface => "surface is not a valid surface for background effects".to_owned(),
        }
    }
}

/// Which surfaces have a background effect object, and which one.
pub struct BackgroundEffectManagerState {
    surface_effects: HashMap<SurfaceId, EffectId>,
}

impl View for BackgroundEffectManagerState {
    type V = Map<SurfaceId, EffectId>;

    closed spec fn view(&self) -> Map<SurfaceId, EffectId> {
        self.surface_effects@
    }
}

/// What the manager global keeps: the filter that says which clients see it.
pub struct BackgroundEffectManagerGlobalData<F> {
    pub filter: F,
}

/// The manager global to be created.
pub struct CreateGlobal<F> {
    pub version: u32,
    pub data: BackgroundEffectManagerGlobalData<F>,
}

/// A compositor that holds the manager's state.
pub trait BackgroundEffectHandler {
    /// The manager's state.
    fn background_effect_manager_state(&mut self) -> (state: &mut BackgroundEffectManagerState);
}

impl BackgroundEffectHandler for BackgroundEffectManagerState {
    fn background_effect_manager_state(&mut self) -> (state: &mut BackgroundEffectManagerState)
        ensures
            *state == *old(self),
            *final(self) == *final(state),
    {
        self
    }
}

/// State stored with each background effect object.
#[derive(Clone, Copy, PartialEq, Eq, Structural, Debug)]
pub struct BackgroundEffectState {
    /// The surface that the object was made for.
    pub surface: SurfaceId,
}

/// State stored with a surface that was given an effect.
#[derive(Debug)]
pub struct SurfaceBackgroundEffectState {
    /// The current background effect type, such as "blur".
    pub effect_type: Option<String>,
}

impl View for SurfaceBackgroundEffectState {
    type V = Option<Seq<char>>;

    open spec fn view(&self) -> Option<Seq<char>> {
        match self.effect_type {
            Some(name) => Some(name@),
            None => None,
        }
    }
}

impl Default for SurfaceBackgroundEffectState {
    fn default() -> (r: SurfaceBackgroundEffectState)
        ensures
            r@ == None::<Seq<char>>,
    {
        SurfaceBackgroundEffectState { effect_type: None }
    }
}

/// The role objects that a surface has.
#[derive(Clone, Copy, PartialEq, Eq, Structural, Debug)]
pub struct SurfaceRoles {
    pub xdg_toplevel: bool,
    pub xdg_popup: bool,
    pub layer_surface: bool,
    pub lock_surface: bool,
}

impl SurfaceRoles {
    /// Whether the surface is an xdg_surface: a toplevel or a popup.
    pub open spec fn xdg_surface(self) -> bool {
        self.xdg_toplevel || self.xdg_popup
    }

    /// Whether a surface with these roles can have a background effect.
    pub open spec fn valid(self) -> bool {
        self.xdg_surface() || self.layer_surface || self.lock_surface
    }
}

/// The requests of the manager.
#[derive(Clone, Copy, PartialEq, Eq, Structural, Debug)]
pub enum ManagerRequest {
    /// Make the effect object `id` for `surface`.
    GetBackgroundEffect { id: EffectId, surface: SurfaceId },
    /// Destroy the manager object.
    Destroy,
}

/// What the compositor does on a request of the manager.
#[derive(Debug)]
pub enum ManagerAction {
    Nothing,
    /// Post a protocol error on the manager object.
    PostError { error: Error, message: String },
    /// Initialise the effect object `id` with `data`.
    InitEffect { id: EffectId, data: BackgroundEffectState },
}

/// The requests of an effect object.
#[derive(Debug)]
pub enum EffectRequest {
    /// Give the surface the effect `effect`, or none at all for "none".
    SetEffect { effect: String },
    /// Destroy the effect object.
    Destroy,
}

/// A change to the state stored with a surface.
#[derive(Debug)]
pub struct SurfaceUpdate {
    /// The surface whose state changes.
    pub surface: SurfaceId,
    pub change: SurfaceChange,
}

/// How the state stored with a surface changes.
#[derive(Debug)]
pub enum SurfaceChange {
    /// Set the effect type, storing a state where the surface has none.
    SetEffectType(Option<String>),
    /// Clear the effect type where the surface has a state.
    ClearEffectType,
}

/// The effect type that a surface has after it was asked to take on `effect`.
pub open spec fn requested_type(effect: Seq<char>) -> Option<Seq<char>> {
    if effect == "none"@ {
        None
    } else {
        Some(effect)
    }
}

/// What a surface's stored state holds, if there is one.
pub open spec fn stored(slot: Option<SurfaceBackgroundEffectState>) -> Option<Option<Seq<char>>> {
    match slot {
        Some(state) => Some(state@),
        None => None,
    }
}

impl View for SurfaceChange {
    type V = Option<Option<Seq<char>>>;

    /// The type that is set, where one is.
    open spec fn view(&self) -> Option<Option<Seq<char>>> {
        match self {
            SurfaceChange::SetEffectType(Some(name)) => Some(Some(name@)),
            SurfaceChange::SetEffectType(None) => Some(None),
            SurfaceChange::ClearEffectType => None,
        }
    }
}

/// What a surface's stored state holds after a change.
pub open spec fn stored_after(
    stored: Option<Option<Seq<char>>>,
    change: Option<Option<Seq<char>>>,
) -> Option<Option<Seq<char>>> {
    match (change, stored) {
        (Some(effect_type), _) => Some(effect_type),
        (None, Some(_)) => Some(None),
        (None, None) => None,
    }
}

impl SurfaceChange {
    /// Makes the change to the state stored with the surface, if any is.
    pub fn apply(self, slot: &mut Option<SurfaceBackgroundEffectState>)
        ensures
            stored(*final(slot)) == stored_after(stored(*old(slot)), self@),
    {
        match self {
            SurfaceChange::SetEffectType(effect_type) => {
                *slot = Some(SurfaceBackgroundEffectState { effect_type });
            },
            SurfaceChange::ClearEffectType => {
                if slot.is_some() {
                    *slot = Some(SurfaceBackgroundEffectState { effect_type: None });
                }
            },
        }
    }
}

impl BackgroundEffectManagerState {
    /// An empty state, and the global that lets clients bind the manager.
    pub fn new<F>(filter: F) -> (r: (BackgroundEffectManagerState, CreateGlobal<F>))
        ensures
            r.0@ == Map::<SurfaceId, EffectId>::empty(),
            r.1.version == VERSION,
            r.1.data.filter == filter,
    {
        let global_data = BackgroundEffectManagerGlobalData { filter };
        (
            BackgroundEffectManagerState { surface_effects: HashMap::new() },
            CreateGlobal { version: VERSION, data: global_data },
        )
    }

    /// Whether a surface with the given roles is valid for background effects: an
    /// xdg_surface, a layer surface or a lock surface.
    pub fn is_valid_surface(roles: &SurfaceRoles) -> (r: bool)
        ensures
            r == roles.valid(),
    {
        if roles.xdg_toplevel || roles.xdg_popup {
            return true;
        }
        if roles.layer_surface {
            return true;
        }
        if roles.lock_surface {
            return true;
        }
        false
    }

    /// Forgets the effect of a surface that is gone.
    pub fn surface_destroyed(&mut self, surface: SurfaceId)
        ensures
            final(self)@ == old(self)@.remove(surface),
    {
        self.surface_effects.remove(&surface);
    }

    /// Whether the manager global is shown to `client`: what the filter says.
    pub fn can_view<C, F: Fn(&C) -> bool>(
        client: C,
        global_data: &BackgroundEffectManagerGlobalData<F>,
    ) -> (r: bool)
        requires
            call_requires(global_data.filter, (&client,)),
        ensures
            call_ensures(global_data.filter, (&client,), r),
    {
        (global_data.filter)(&client)
    }

    /// Answers a request of the manager. `roles` are those of the surface that the
    /// request names, if it names one.
    pub fn request(&mut self, request: ManagerRequest, roles: &SurfaceRoles) -> (action:
        ManagerAction)
        ensures
            final(self)@ == effects_after(old(self)@, request, *roles),
            match refusal(old(self)@, request, *roles) {
                Some(reason) => action matches ManagerAction::PostError { error, message } && error
                    == reason && message@ == reason.text(),
                None => match request {
                    ManagerRequest::GetBackgroundEffect { id, surface } => action
                        == (ManagerAction::InitEffect {
                        id,
                        data: BackgroundEffectState { surface },
                    }),
                    ManagerRequest::Destroy => action is Nothing,
                },
            },
    {
        match request {
            ManagerRequest::GetBackgroundEffect { id, surface } => {
                if self.surface_effects.contains_key(&surface) {
                    let error = Error::BackgroundEffectExists;
                    return ManagerAction::PostError { error, message: error.message() };
                }
                if !BackgroundEffectManagerState::is_valid_surface(roles) {
                    let error = Error::InvalidSurface;
                    return ManagerAction::PostError { error, message: error.message() };
                }
                self.surface_effects.insert(surface, id);
                ManagerAction::InitEffect { id, data: BackgroundEffectState { surface } }
            },
            ManagerRequest::Destroy => ManagerAction::Nothing,
        }
    }

    /// Answers a request of the effect object that `data` is stored with.
    pub fn effect_request(data: &BackgroundEffectState, request: EffectRequest) -> (update: Option<
        SurfaceUpdate,
    >)
        ensures
            match request {
                EffectRequest::SetEffect { effect } => {
                    &&& update matches Some(u)
                    &&& u.surface == data.surface
                    &&& u.change@ == Some(requested_type(effect@))
                },
                EffectRequest::Destroy => update is None,
            },
    {
        match request {
            EffectRequest::SetEffect { effect } => {
                let effect_type: Option<String> = if effect == "none".to_owned() {
                    None
                } else {
                    Some(effect)
                };
                Some(
                    SurfaceUpdate {
                        surface: data.surface,
                        change: SurfaceChange::SetEffectType(effect_type),
                    },
                )
            },
            EffectRequest::Destroy => None,
        }
    }

    /// Forgets the effect object `resource`, that `data` is stored with, and takes its
    /// effect from the surface.
    pub fn destroyed(&mut self, resource: EffectId, data: &BackgroundEffectState) -> (update:
        SurfaceUpdate)
        ensures
            final(self)@ == effects_without(old(self)@, resource, *data),
            update.surface == data.surface,
            update.change is ClearEffectType,
    {
        if let Some(known) = self.surface_effects.get(&data.surface) {
            if *known == resource {
                self.surface_effects.remove(&data.surface);
            }
        }
        SurfaceUpdate { surface: data.surface, change: SurfaceChange::ClearEffectType }
    }
}

/// The effects after the effect object `resource`, that `data` is stored with, is gone.
pub open spec fn effects_without(
    effects: Map<SurfaceId, EffectId>,
    resource: EffectId,
    data: BackgroundEffectState,
) -> Map<SurfaceId, EffectId> {
    if effects.contains_key(data.surface) && effects[data.surface] == resource {
        effects.remove(data.surface)
    } else {
        effects
    }
}

/// The error with which a request of the manager is refused, if it is.
pub open spec fn refusal(
    effects: Map<SurfaceId, EffectId>,
    request: ManagerRequest,
    roles: SurfaceRoles,
) -> Option<Error> {
    match request {
        ManagerRequest::GetBackgroundEffect { surface, .. } => if effects.contains_key(surface) {
            Some(Error::BackgroundEffectExists)
        } else if !roles.valid() {
            Some(Error::InvalidSurface)
        } else {
            None
        },
        ManagerRequest::Destroy => None,
    }
}

/// The effects after a request of the manager.
pub open spec fn effects_after(
    effects: Map<SurfaceId, EffectId>,
    request: ManagerRequest,
    roles: SurfaceRoles,
) -> Map<SurfaceId, EffectId> {
    match request {
        ManagerRequest::GetBackgroundEffect { id, surface } if refusal(effects, request, roles)
            is None => effects.insert(surface, id),
        _ => effects,
    }
}

} // verus!
