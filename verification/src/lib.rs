//! A verified model of a standard 52-card deck: ranks, suits, cards,
//! deck construction, shuffling, drawing, and dealing into hands.

pub mod cards;
