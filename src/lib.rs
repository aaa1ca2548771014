//! Control and communication core of a two-wheel differential-drive robot:
//! a fixed-point PID controller, an adaptive-threshold quadrature decoder with
//! its sampling state machine, and the framed request/response link to a host.

pub mod int_pid;
pub mod queue;
pub mod protocol;
pub mod codec;
pub mod rpc;
pub mod motor;
pub mod scan;
