pub mod fsm;
