//! Onboard control library for the Irro robot.
//!
//! The heart of the library is the serial link to the robot's
//! microcontroller: commands are framed into binary messages, sent only while
//! the device's small receive buffer has room for them, and the device's
//! answers are handed back, in order, to whoever sent each command.

pub mod channel;
pub mod cmd;
pub mod connection;
pub mod frame;
pub mod in_air;
pub mod message;
