//! A library for checking that file and directory names follow a chosen
//! naming convention, honouring gitignore-style exclusion rules, a built-in
//! list of well-known tooling files, and a few ecosystem-specific naming
//! exceptions.
pub mod driver;
pub mod formats;
pub mod ignore;
pub mod special_cases;
pub mod special_ignore;
pub mod text;
