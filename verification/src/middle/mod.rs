pub mod varcheck;
