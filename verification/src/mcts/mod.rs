pub mod gumbel;
