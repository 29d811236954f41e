//! The plain components of the game: health, inventory, display, and the
//! markers.

use crate::a_star::{
    a_star_search, reconstruct_path, search_outcome, spec_path, spec_to_cell, CameFrom,
};
use crate::chunk::{Cell, Chunk};
use crate::ecs::actor::Actor;
use vstd::prelude::*;

verus! {

/// How much damage an entity can still take.
#[derive(Copy, Clone, Debug, PartialEq, Eq, Structural)]
pub struct Health {
    amount: i32,
}

impl Health {
    /// The amount left; zero or less means dead.
    pub closed spec fn spec_amount(&self) -> i32 {
        self.amount
    }

    /// Health of the given amount.
    pub fn new(amount: i32) -> (health: Self)
        ensures
            health.spec_amount() == amount,
    {
        Self { amount }
    }

    /// Lowers the amount by `amount`. The difference must fit the machine
    /// integer.
    pub fn take_damage(&mut self, amount: i32)
        requires
            i32::MIN <= old(self).spec_amount() - amount <= i32::MAX,
        ensures
            final(self).spec_amount() == old(self).spec_amount() - amount,
    {
        self.amount -= amount;
    }

    /// The amount left.
    pub fn amount(&self) -> (amount: i32)
        ensures
            amount == self.spec_amount(),
    {
        self.amount
    }
}

/// The token that the `n`-th pickup puts into an inventory.
pub open spec fn item_token(n: int) -> char {
    if n % 2 == 0 {
        'a'
    } else {
        'b'
    }
}

/// The items an entity carries, in the order it picked them up.
pub struct Inventory {
    items: Vec<char>,
}

impl Inventory {
    /// The item tokens, oldest first.
    pub closed spec fn view(&self) -> Seq<char> {
        self.items@
    }

    /// An inventory without items.
    pub fn new() -> (inventory: Self)
        ensures
            inventory@ == Seq::<char>::empty(),
    {
        Self { items: Vec::new() }
    }

    /// Appends the token of the next pickup.
    pub fn add_item(&mut self)
        ensures
            final(self)@ == old(self)@.push(item_token(old(self)@.len() as int)),
    {
        let c = if self.items.len() % 2 == 0 {
            'a'
        } else {
            'b'
        };
        self.items.push(c);
    }

    /// Takes out the item at `index`; the later ones move up. An index past
    /// the end changes nothing.
    pub fn remove_item(&mut self, index: usize)
        ensures
            index < old(self)@.len() ==> final(self)@ == old(self)@.remove(index as int),
            index >= old(self)@.len() ==> final(self)@ == old(self)@,
    {
        if index < self.items.len() {
            self.items.remove(index);
        }
    }

    /// The item tokens, oldest first.
    pub fn items(&self) -> (items: &Vec<char>)
        ensures
            items@ == self@,
    {
        &self.items
    }
}

/// The sprite an entity is drawn with.
#[derive(Copy, Clone, Debug, PartialEq, Eq, Structural)]
pub struct Display {
    tex_index: u32,
}

impl Display {
    /// The index of the sprite's texture.
    pub closed spec fn spec_tex_index(&self) -> u32 {
        self.tex_index
    }

    /// A display with the texture of the given index.
    pub fn new(tex_index: u32) -> (display: Self)
        ensures
            display.spec_tex_index() == tex_index,
    {
        Self { tex_index }
    }

    /// The index of the sprite's texture.
    pub fn tex_index(&self) -> (tex_index: u32)
        ensures
            tex_index == self.spec_tex_index(),
    {
        self.tex_index
    }
}

/// Marks the entity that the player steers.
#[derive(Copy, Clone, Debug, PartialEq, Eq, Structural)]
pub struct Player {}

/// Marks an entity that can be picked up.
#[derive(Copy, Clone, Debug, PartialEq, Eq, Structural)]
pub struct Item {}

/// Marks an entity whose health is shown on screen.
#[derive(Copy, Clone, Debug, PartialEq, Eq, Structural)]
pub struct HealthDisplay {}

/// Marks an entity whose inventory is shown on screen.
#[derive(Copy, Clone, Debug, PartialEq, Eq, Structural)]
pub struct InventoryDisplay {}

/// A follower of paths. It is idle while it has no next waypoint, and
/// follows while it has one.
pub struct ChaseAi {
    path: Vec<Cell>,
    next: Option<Cell>,
}

/// The waypoint to head for and the rest of the stack, once `route` (goal
/// first) has been taken up.
pub open spec fn taken_up(route: Seq<Cell>) -> (Seq<Cell>, Option<Cell>) {
    if route.len() == 0 {
        (route, None)
    } else {
        (route.drop_last(), Some(route.last()))
    }
}

impl ChaseAi {
    /// The waypoints still to visit after `next`, as a stack: the last one
    /// is visited first, the first one is the goal.
    pub closed spec fn path(&self) -> Seq<Cell> {
        self.path@
    }

    /// The waypoint the follower is heading for.
    pub closed spec fn next(&self) -> Option<Cell> {
        self.next
    }

    /// An idle follower without a path.
    pub fn new() -> (ai: Self)
        ensures
            ai.path() == Seq::<Cell>::empty(),
            ai.next() is None,
    {
        Self { path: Vec::new(), next: None }
    }

    /// Searches a way from `start` to `goal`, both in whole world units,
    /// takes it as the new path and heads for its first waypoint. Without a
    /// way the follower is idle with an empty path.
    pub fn repath(&mut self, chunk: &Chunk, start: Cell, goal: Cell)
        requires
            chunk.wf(),
        ensures
            exists|came_from: CameFrom| #[trigger]
                search_outcome(chunk, spec_to_cell(start), spec_to_cell(goal), came_from@) && (
                final(self).path(),
                final(self).next(),
            ) == taken_up(spec_path(&came_from, spec_to_cell(start), spec_to_cell(goal))),
    {
        let mut came_from = CameFrom::new();
        a_star_search(chunk, start, goal, &mut came_from);
        reconstruct_path(start, goal, &came_from, &mut self.path);
        self.next = self.path.pop();
        proof {
            let route = spec_path(&came_from, spec_to_cell(start), spec_to_cell(goal));
            assert(search_outcome(chunk, spec_to_cell(start), spec_to_cell(goal), came_from@));
            assert((self.path(), self.next()) == taken_up(route));
        }
    }

    /// The waypoint the follower is heading for, if it is following.
    pub fn next_waypoint(&self) -> (next: Option<Cell>)
        ensures
            next == self.next(),
    {
        self.next
    }

    /// The follower has arrived at its waypoint and is idle again.
    pub fn arrive(&mut self)
        ensures
            final(self).next() is None,
            final(self).path() == old(self).path(),
    {
        self.next = None;
    }

    /// An idle follower takes the next waypoint off its path, if there is
    /// one.
    pub fn advance(&mut self)
        ensures
            (final(self).path(), final(self).next()) == taken_up(old(self).path()),
    {
        self.next = self.path.pop();
    }
}

/// The kinds of component that entities can have.
#[derive(Copy, Clone, Debug, PartialEq, Eq, Structural)]
pub enum ComponentKind {
    Actor,
    ChaseAi,
    Player,
    Item,
    Display,
    Health,
    HealthDisplay,
    Inventory,
    InventoryDisplay,
}

/// A component of any kind.
pub enum Component {
    Actor(Actor),
    ChaseAi(ChaseAi),
    Player(Player),
    Item(Item),
    Display(Display),
    Health(Health),
    HealthDisplay(HealthDisplay),
    Inventory(Inventory),
    InventoryDisplay(InventoryDisplay),
}

impl Component {
    /// The kind of this component.
    pub open spec fn spec_kind(&self) -> ComponentKind {
        match self {
            Component::Actor(_) => ComponentKind::Actor,
            Component::ChaseAi(_) => ComponentKind::ChaseAi,
            Component::Player(_) => ComponentKind::Player,
            Component::Item(_) => ComponentKind::Item,
            Component::Display(_) => ComponentKind::Display,
            Component::Health(_) => ComponentKind::Health,
            Component::HealthDisplay(_) => ComponentKind::HealthDisplay,
            Component::Inventory(_) => ComponentKind::Inventory,
            Component::InventoryDisplay(_) => ComponentKind::InventoryDisplay,
        }
    }

    /// The kind of this component.
    pub fn kind(&self) -> (kind: ComponentKind)
        ensures
            kind == self.spec_kind(),
    {
        match self {
            Component::Actor(_) => ComponentKind::Actor,
            Component::ChaseAi(_) => ComponentKind::ChaseAi,
            Component::Player(_) => ComponentKind::Player,
            Component::Item(_) => ComponentKind::Item,
            Component::Display(_) => ComponentKind::Display,
            Component::Health(_) => ComponentKind::Health,
            Component::HealthDisplay(_) => ComponentKind::HealthDisplay,
            Component::Inventory(_) => ComponentKind::Inventory,
            Component::InventoryDisplay(_) => ComponentKind::InventoryDisplay,
        }
    }
}

} // verus!
