pub mod slashing;
pub mod pow;
pub mod poa;
