pub mod vf2;
