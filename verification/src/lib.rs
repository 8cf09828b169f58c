use vstd::prelude::*;

pub mod behaviour;
pub mod cli;
pub mod constants;
pub mod detect;
pub mod docx;
pub mod encoding;
pub mod glob;
pub mod ignore;
pub mod lang;
pub mod laws;
pub mod pack;
pub mod paths;
pub mod platform;
pub mod settings;
pub mod text;
pub mod unpack;
pub mod window;
pub mod xmlio;
pub mod zipio;

verus! {

} // verus!
