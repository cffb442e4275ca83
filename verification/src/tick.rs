//! Prices that move in ticks.
use vstd::prelude::*;

verus! {

/// The direction in which a price is about to move.
pub enum Direction {
    Up,
    Down,
    /// The price stays where it is.
    Still,
}

/// A price that moves in ticks whose size depends on the price itself
/// and on the direction of the move.
pub trait PriceTick: Sized {
    /// The price as a number.
    spec fn amount(&self) -> int;

    /// The size of the tick at this price for a move in a direction.
    spec fn tick(&self, direction: Direction) -> int;

    /// Whether a number is one that a price can hold.
    spec fn fits(amount: int) -> bool;

    /// The size of the tick at this price for a move in a direction, as a price.
    fn tickify(&self, direction: Direction) -> (tick: Self)
        ensures
            tick.amount() == self.tick(direction),
    ;

    /// Whether the price is a whole number of ticks.
    fn valid_price(&self) -> (valid: bool)
        requires
            self.tick(Direction::Still) != 0,
        ensures
            valid == (self.amount() % self.tick(Direction::Still) == 0),
    ;

    /// The price one tick up.
    fn ceiling_price(self) -> (price: Self)
        requires
            Self::fits(self.amount() + self.tick(Direction::Up)),
        ensures
            price.amount() == self.amount() + self.tick(Direction::Up),
    ;

    /// The price one tick down.
    fn floor_price(self) -> (price: Self)
        requires
            Self::fits(self.amount() - self.tick(Direction::Down)),
        ensures
            price.amount() == self.amount() - self.tick(Direction::Down),
    ;
}

} // verus!
