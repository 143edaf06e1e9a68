pub mod lowexprstmt;
pub mod simplify;
pub mod lowprinting;
