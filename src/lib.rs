pub mod limits;
pub mod transaction;
pub mod ledger;
pub mod render;
pub mod statement;
pub mod clock;
pub mod text;
pub mod request;
pub mod balancer;
