//! Key-policy attribute-based encryption after Lewko, Sahai and Waters,
//! with the linear secret sharing over policy trees proved in Verus.

mod entropy;
pub mod scalar;
pub mod group;
pub mod hash;
pub mod envelope;
pub mod lsw;
pub mod tools;
pub mod policy;
pub mod lsss;
pub mod parser;
