pub mod scron;
pub mod scxml;
