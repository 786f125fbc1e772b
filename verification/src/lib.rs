pub mod array2d;
pub mod display;
pub mod instructions;
pub mod machine;
pub mod scheduler;
pub mod texture;
pub mod timers;
