//! A hierarchical scene graph with a verified depth-first traversal, and the
//! input state that an event context hands to a render loop.

pub mod input;
pub mod scene;
