//! The `Broadcast` operation once more, under a module name that verified
//! code can write: inside `verus!`, `broadcast` is a keyword and cannot stand
//! in a path.

pub use crate::ops::broadcast::{
    broadcast_backward_reads, broadcast_backward_writes, broadcast_forward_reads,
    broadcast_forward_writes, channels_of, refuses, Broadcast, BroadcastInstance,
};
