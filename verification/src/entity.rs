//! Entities and the components they carry.
//!
//! An entity is an identifier; all that is known of it is the set of
//! components attached to it. Systems pick the entities they act on by the
//! components these carry.

use vstd::prelude::*;
use crate::animation::Animation;
use crate::geometry::{Extent, Vec2};

verus! {

/// The identifier of an entity. It carries no data of its own.
#[derive(Clone, Copy, Debug, PartialEq, Eq, Hash)]
pub struct EntityId(pub u64);

/// A handle to an asset held by the renderer. The simulation passes it
/// through and never looks inside.
#[derive(Clone, Copy, Debug, PartialEq, Eq)]
pub struct AssetHandle(pub u64);

/// Marks an entity that the movement system advances.
#[derive(Clone, Copy, Debug, PartialEq, Eq)]
pub struct Movable {
    /// Whether the entity is removed once it has left the playfield.
    pub auto_despawn: bool,
}

/// The side a projectile was fired by.
#[derive(Clone, Copy, Debug, PartialEq, Eq)]
pub enum Ownership {
    Player,
    Enemy,
}

/// What an entity is in a collision.
#[derive(Clone, Copy, Debug, PartialEq, Eq)]
pub enum Role {
    Projectile,
    Target,
    Explosion,
}

/// One component, ready to be attached to an entity.
#[derive(Clone, Copy, Debug, PartialEq, Eq)]
pub enum Component {
    Position(Vec2),
    Velocity(Vec2),
    Size(Extent),
    Scale(Extent),
    Movable(Movable),
    Ownership(Ownership),
    Role(Role),
    Animation(Animation),
    Sprite(AssetHandle),
}

/// The components of one entity, each present or absent.
#[derive(Clone, Copy, Debug, PartialEq, Eq)]
pub struct Components {
    pub position: Option<Vec2>,
    pub velocity: Option<Vec2>,
    pub size: Option<Extent>,
    pub scale: Option<Extent>,
    pub movable: Option<Movable>,
    pub ownership: Option<Ownership>,
    pub role: Option<Role>,
    pub animation: Option<Animation>,
    pub sprite: Option<AssetHandle>,
}

/// An entity as the store holds it: its identifier and its components.
#[derive(Clone, Copy, Debug, PartialEq, Eq)]
pub struct Entity {
    pub id: EntityId,
    pub components: Components,
}

/// A selection of entities by the components they carry. A `true` field asks
/// for the component to be present; a `Some` field asks for that very tag.
#[derive(Clone, Copy, Debug, PartialEq, Eq)]
pub struct Filter {
    pub position: bool,
    pub velocity: bool,
    pub size: bool,
    pub scale: bool,
    pub movable: bool,
    pub animation: bool,
    pub sprite: bool,
    pub ownership: Option<Ownership>,
    pub role: Option<Role>,
}

impl Components {
    /// The empty set of components.
    pub open spec fn none() -> Components {
        Components {
            position: None,
            velocity: None,
            size: None,
            scale: None,
            movable: None,
            ownership: None,
            role: None,
            animation: None,
            sprite: None,
        }
    }

    /// Whether no component is present.
    pub open spec fn is_none(self) -> bool {
        self == Components::none()
    }

    /// These components with `c` attached, in place of an earlier component
    /// of the same kind.
    pub open spec fn with(self, c: Component) -> Components {
        match c {
            Component::Position(v) => Components { position: Some(v), ..self },
            Component::Velocity(v) => Components { velocity: Some(v), ..self },
            Component::Size(v) => Components { size: Some(v), ..self },
            Component::Scale(v) => Components { scale: Some(v), ..self },
            Component::Movable(v) => Components { movable: Some(v), ..self },
            Component::Ownership(v) => Components { ownership: Some(v), ..self },
            Component::Role(v) => Components { role: Some(v), ..self },
            Component::Animation(v) => Components { animation: Some(v), ..self },
            Component::Sprite(v) => Components { sprite: Some(v), ..self },
        }
    }

    /// Makes the empty set of components.
    pub fn empty() -> (c: Components)
        ensures
            c == Components::none(),
    {
        Components {
            position: None,
            velocity: None,
            size: None,
            scale: None,
            movable: None,
            ownership: None,
            role: None,
            animation: None,
            sprite: None,
        }
    }

    /// Tells whether no component is present.
    pub fn is_empty(&self) -> (r: bool)
        ensures
            r == self.is_none(),
    {
        self.position.is_none() && self.velocity.is_none() && self.size.is_none()
            && self.scale.is_none() && self.movable.is_none() && self.ownership.is_none()
            && self.role.is_none() && self.animation.is_none() && self.sprite.is_none()
    }

    /// Attaches `c`, in place of an earlier component of the same kind.
    pub fn attach(&mut self, c: Component)
        ensures
            *final(self) == old(self).with(c),
    {
        match c {
            Component::Position(v) => {
                self.position = Some(v);
            },
            Component::Velocity(v) => {
                self.velocity = Some(v);
            },
            Component::Size(v) => {
                self.size = Some(v);
            },
            Component::Scale(v) => {
                self.scale = Some(v);
            },
            Component::Movable(v) => {
                self.movable = Some(v);
            },
            Component::Ownership(v) => {
                self.ownership = Some(v);
            },
            Component::Role(v) => {
                self.role = Some(v);
            },
            Component::Animation(v) => {
                self.animation = Some(v);
            },
            Component::Sprite(v) => {
                self.sprite = Some(v);
            },
        }
    }
}

impl Filter {
    /// Whether `c` carries everything the filter asks for.
    pub open spec fn accepts(self, c: Components) -> bool {
        &&& self.position ==> c.position is Some
        &&& self.velocity ==> c.velocity is Some
        &&& self.size ==> c.size is Some
        &&& self.scale ==> c.scale is Some
        &&& self.movable ==> c.movable is Some
        &&& self.animation ==> c.animation is Some
        &&& self.sprite ==> c.sprite is Some
        &&& self.ownership is Some ==> c.ownership == self.ownership
        &&& self.role is Some ==> c.role == self.role
    }

    /// The filter that asks for nothing.
    pub open spec fn everything() -> Filter {
        Filter {
            position: false,
            velocity: false,
            size: false,
            scale: false,
            movable: false,
            animation: false,
            sprite: false,
            ownership: None,
            role: None,
        }
    }

    /// Makes the filter that asks for nothing and so accepts every entity.
    pub fn any() -> (f: Filter)
        ensures
            f == Filter::everything(),
    {
        Filter {
            position: false,
            velocity: false,
            size: false,
            scale: false,
            movable: false,
            animation: false,
            sprite: false,
            ownership: None,
            role: None,
        }
    }

    /// Tells whether `c` carries everything the filter asks for.
    pub fn matches(&self, c: &Components) -> (r: bool)
        ensures
            r == self.accepts(*c),
    {
        (!self.position || c.position.is_some()) && (!self.velocity || c.velocity.is_some())
            && (!self.size || c.size.is_some()) && (!self.scale || c.scale.is_some())
            && (!self.movable || c.movable.is_some()) && (!self.animation
            || c.animation.is_some()) && (!self.sprite || c.sprite.is_some())
            && same_ownership(self.ownership, c.ownership) && same_role(self.role, c.role)
    }
}

fn same_ownership(wanted: Option<Ownership>, found: Option<Ownership>) -> (r: bool)
    ensures
        r == (wanted is Some ==> found == wanted),
{
    match wanted {
        None => true,
        Some(Ownership::Player) => match found {
            Some(Ownership::Player) => true,
            _ => false,
        },
        Some(Ownership::Enemy) => match found {
            Some(Ownership::Enemy) => true,
            _ => false,
        },
    }
}

fn same_role(wanted: Option<Role>, found: Option<Role>) -> (r: bool)
    ensures
        r == (wanted is Some ==> found == wanted),
{
    match wanted {
        None => true,
        Some(Role::Projectile) => match found {
            Some(Role::Projectile) => true,
            _ => false,
        },
        Some(Role::Target) => match found {
            Some(Role::Target) => true,
            _ => false,
        },
        Some(Role::Explosion) => match found {
            Some(Role::Explosion) => true,
            _ => false,
        },
    }
}

} // verus!
