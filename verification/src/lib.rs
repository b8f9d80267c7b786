//! Block compression functions of SHA-1 and the SHA-2 family (FIPS 180-4),
//! verified against the mathematical definitions of the standard.
#![allow(non_snake_case)]

pub mod digest;
