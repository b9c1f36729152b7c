//! A live dashboard for a web server: the rolling window of recent error-log
//! lines, the tailer that cuts a growing log into lines, the reader of the
//! process listing that gives the server's mean CPU and memory use, and the
//! refresh loop's decisions, from keypress to terminal restoration.
use vstd::prelude::*;

pub mod dashboard;
pub mod line_buffer;
pub mod tailer;
pub mod text;
pub mod usage;

verus! {

} // verus!
