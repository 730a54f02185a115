//! Decision core of a soundboard's audio worker: which clips must be decoded,
//! how each play request is scheduled, and which playback handles a stop
//! command must halt.
pub mod command;
pub mod dispatch;
pub mod laws;
pub mod table;

pub use command::{start_for, Command, Start, TICKS_PER_SECOND};
pub use table::ClipTable;
pub use dispatch::{
    after_play, after_stop, handles_in, is_request_for, lemma_flatten_holds, needs_decode, Action,
    Dispatcher, PlayRequest,
};
pub use laws::{
    after_plays, lemma_decode_once, lemma_plays_counted, lemma_reverse_then_forward,
    lemma_stop_all_twice, lemma_stop_clip,
};
