//! Verified logic of a small game-engine workspace: input, the dialogue
//! dialect and its typewriter, the scene document and its editor, draw plans,
//! mesh flattening, readback and streaming layouts, and the games' rules.
pub mod dialogue;
pub mod draw;
pub mod editor;
pub mod exports;
pub mod input;
pub mod mesh;
pub mod readback;
pub mod rules;
pub mod runner;
pub mod scene;
pub mod script;
pub mod stream;
pub mod tags;
pub mod text;
pub mod viewer;
