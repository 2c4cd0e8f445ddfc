// A real-time synthesis graph: composable signal nodes in fixed point, summed and limited
// into stereo frames.
pub mod blocks;
pub mod engine;
pub mod fixed;
