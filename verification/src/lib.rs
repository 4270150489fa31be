//! A reusable source of randomized index permutations that can be bound, on
//! demand, to caller-owned decks to produce stable, reusable lookup views.

pub mod dispenser;
