use vstd::prelude::*;

use crate::grid::GridCell;

verus! {

/// The kinds of resource item that agents look for and spawners maintain.
#[derive(Clone, Copy, Debug, PartialEq, Eq, Structural)]
pub enum TargetKind {
    Fruit,
    Coins,
}

/// A fruit: eating it refills hunger by its nutritional value.
#[derive(Clone, Copy, Debug, PartialEq, Eq, Structural)]
pub struct Fruit {
    pub nutritional_value: usize,
}

impl Fruit {
    pub fn new(nutritional_value: usize) -> (r: Fruit)
        ensures
            r.nutritional_value == nutritional_value,
    {
        Fruit { nutritional_value }
    }
}

/// A coin: picking it up earns its monetary value in points.
#[derive(Clone, Copy, Debug, PartialEq, Eq, Structural)]
pub struct Coin {
    pub monetary_value: usize,
}

impl Coin {
    pub fn new(monetary_value: usize) -> (r: Coin)
        ensures
            r.monetary_value == monetary_value,
    {
        Coin { monetary_value }
    }
}

/// What lies on a cell.
#[derive(Clone, Copy, Debug, PartialEq, Eq, Structural)]
pub enum Resource {
    Fruit(Fruit),
    Coin(Coin),
}

/// The kind of item a resource is.
pub open spec fn kind_of(r: Resource) -> TargetKind {
    match r {
        Resource::Fruit(_) => TargetKind::Fruit,
        Resource::Coin(_) => TargetKind::Coins,
    }
}

impl Resource {
    pub fn kind(&self) -> (r: TargetKind)
        ensures
            r == kind_of(*self),
    {
        match self {
            Resource::Fruit(_) => TargetKind::Fruit,
            Resource::Coin(_) => TargetKind::Coins,
        }
    }
}

/// A resource item placed on the grid, with an identity that targets refer to.
#[derive(Clone, Copy, Debug, PartialEq, Eq, Structural)]
pub struct Item {
    pub id: u64,
    pub cell: GridCell,
    pub resource: Resource,
}

/// How many of `items` are of `kind`.
pub open spec fn count_kind(items: Seq<Item>, kind: TargetKind) -> nat
    decreases items.len(),
{
    if items.len() == 0 {
        0
    } else {
        count_kind(items.drop_last(), kind) + if kind_of(items.last().resource) == kind {
            1nat
        } else {
            0nat
        }
    }
}

proof fn lemma_count_kind_bound(items: Seq<Item>, kind: TargetKind)
    ensures
        count_kind(items, kind) <= items.len(),
    decreases items.len(),
{
    if items.len() > 0 {
        lemma_count_kind_bound(items.drop_last(), kind);
    }
}

/// The number of items of `kind`.
pub fn count_of_kind(items: &Vec<Item>, kind: TargetKind) -> (r: usize)
    ensures
        r == count_kind(items@, kind),
{
    let mut n: usize = 0;
    let mut i: usize = 0;
    while i < items.len()
        invariant
            i <= items@.len(),
            n == count_kind(items@.take(i as int), kind),
        decreases items@.len() - i,
    {
        proof {
            assert(items@.take(i as int + 1).drop_last() =~= items@.take(i as int));
            lemma_count_kind_bound(items@.take(i as int), kind);
        }
        if items[i].resource.kind() == kind {
            n = n + 1;
        }
        i = i + 1;
    }
    proof {
        assert(items@.take(i as int) =~= items@);
    }
    n
}

} // verus!
