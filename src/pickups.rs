use vstd::prelude::*;

use crate::grid::GridCell;
use crate::hunger::{min, Hunger};
use crate::items::{Item, Resource};
use crate::points::Points;

verus! {

/// Whether the pickup leaf of an agent on `cell` takes `it`: coins always, fruit only
/// when the agent has a hunger stat to feed.
pub open spec fn consumed(it: Item, cell: GridCell, eats: bool) -> bool {
    it.cell == cell && match it.resource {
        Resource::Fruit(_) => eats,
        Resource::Coin(_) => true,
    }
}

/// The items left, in order, once an agent on `cell` has picked up what it takes.
pub open spec fn kept(items: Seq<Item>, cell: GridCell, eats: bool) -> Seq<Item>
    decreases items.len(),
{
    if items.len() == 0 {
        seq![]
    } else if consumed(items.last(), cell, eats) {
        kept(items.drop_last(), cell, eats)
    } else {
        kept(items.drop_last(), cell, eats).push(items.last())
    }
}

/// Total nutritional value of the fruit on `cell`.
pub open spec fn fruit_on(items: Seq<Item>, cell: GridCell) -> nat
    decreases items.len(),
{
    if items.len() == 0 {
        0
    } else {
        fruit_on(items.drop_last(), cell) + match items.last().resource {
            Resource::Fruit(f) => if items.last().cell == cell {
                f.nutritional_value as nat
            } else {
                0nat
            },
            Resource::Coin(_) => 0nat,
        }
    }
}

/// Total monetary value of the coins on `cell`.
pub open spec fn coins_on(items: Seq<Item>, cell: GridCell) -> nat
    decreases items.len(),
{
    if items.len() == 0 {
        0
    } else {
        coins_on(items.drop_last(), cell) + match items.last().resource {
            Resource::Coin(c) => if items.last().cell == cell {
                c.monetary_value as nat
            } else {
                0nat
            },
            Resource::Fruit(_) => 0nat,
        }
    }
}

/// One evaluation of the pickup leaf for an agent on `cell`: every item on the cell
/// that it takes is removed; fruit feeds its hunger and coins earn it points, each
/// clamped to the stat's capacity or goal. Items on other cells stay, in order.
pub fn pick_up(cell: &GridCell, hunger: &mut Option<Hunger>, points: &mut Points, items: &mut Vec<Item>)
    requires
        *old(hunger) matches Some(h) ==> h.wf(),
        old(points).wf(),
    ensures
        final(items)@ == kept(old(items)@, *cell, (*old(hunger)) is Some),
        final(points).earned() == min(
            (old(points).earned() + coins_on(old(items)@, *cell)) as int,
            old(points).target() as int,
        ),
        final(points).target() == old(points).target(),
        final(points).wf(),
        (*old(hunger)) is None ==> (*final(hunger)) is None,
        *old(hunger) matches Some(h) ==> *final(hunger) matches Some(h2) && h2.wf() && h2.cap()
            == h.cap() && h2.level() == min((h.level() + fruit_on(old(items)@, *cell)) as int, h.cap() as int),
{
    let ghost s = old(items)@;
    let ghost h0 = *old(hunger);
    let ghost p0 = *old(points);
    let eats = hunger.is_some();
    let mut rest: Vec<Item> = Vec::new();
    let mut j: usize = 0;
    while j < items.len()
        invariant
            s == items@,
            eats == (h0 is Some),
            j <= s.len(),
            rest@ == kept(s.take(j as int), *cell, eats),
            points.wf(),
            points.target() == p0.target(),
            points.earned() == min((p0.earned() + coins_on(s.take(j as int), *cell)) as int, p0.target() as int),
            h0 is None ==> *hunger is None,
            h0 matches Some(h) ==> *hunger matches Some(h2) && h2.wf() && h2.cap() == h.cap()
                && h2.level() == min((h.level() + fruit_on(s.take(j as int), *cell)) as int, h.cap() as int),
        decreases s.len() - j,
    {
        let item = items[j];
        proof {
            assert(s.take(j as int + 1).drop_last() =~= s.take(j as int));
            assert(s.take(j as int + 1).last() == item);
        }
        if item.cell == *cell {
            match item.resource {
                Resource::Fruit(fruit) => {
                    match hunger {
                        Some(h) => {
                            h.eat(fruit.nutritional_value);
                        },
                        None => {
                            rest.push(item);
                        },
                    }
                },
                Resource::Coin(coin) => {
                    points.earn(coin.monetary_value);
                },
            }
        } else {
            rest.push(item);
        }
        j = j + 1;
    }
    proof {
        assert(s.take(j as int) =~= s);
    }
    *items = rest;
}

} // verus!
