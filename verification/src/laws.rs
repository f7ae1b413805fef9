//! What holds of the queue as a whole.

pub mod calls;
pub mod order;
pub mod rounds;
pub mod rows;
pub mod starts;
pub mod takes;
