pub mod check;
pub mod untie;
pub mod derive;
pub mod status;
pub mod checkout;
pub mod feature;
pub mod product;
pub mod tag;
pub mod tree;
pub mod clone;
pub mod commit;
pub mod init;
pub mod spread;
pub mod tangl;
