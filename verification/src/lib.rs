pub mod errors;
pub mod kzg;
pub mod points;
pub mod pow2;
pub mod roots;
pub mod scalar;
pub mod scan;
