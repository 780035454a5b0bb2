pub mod char_class;
pub mod fsm;
pub mod identifier_fsm;
pub mod keyword_fsm;
pub mod number_fsm;
pub mod parameter_fsm;
