//! A rotating-savings circle: a fixed group of members each contribute a
//! fixed amount per round into a pooled balance, and each round exactly one
//! member, chosen by a priority order fixed at activation, withdraws the
//! whole pool.

pub mod circle;
pub mod laws;
pub mod order;

pub use circle::Circle;
pub use circle::CircleStatus;
pub use circle::FairCircleError;
pub use circle::MemberId;
pub use circle::CIRCLE_NAME_MAX_LEN;
pub use circle::MAX_CONTRIBUTION_AMOUNT;
pub use circle::MAX_MEMBERS;
pub use circle::MIN_MEMBERS;
