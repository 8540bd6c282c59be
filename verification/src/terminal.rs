//! Interactive terminals: what each channel message means for the UI.

use vstd::prelude::*;

use crate::session::ChannelEvent;

verus! {

/// What a terminal reports to the UI.
#[derive(Debug)]
pub enum TermEvent {
    Data(Vec<u8>),
    Exit,
}

/// The terminal's reaction to the next channel message (`None` when the
/// channel is gone or closed locally): the event to report, if any, and
/// whether to keep reading. Output of either stream is passed on; end of
/// file, close and the end of the channel end the terminal.
pub fn terminal_step(msg: Option<ChannelEvent>) -> (r: (Option<TermEvent>, bool))
    ensures
        match msg {
            None => r.0 matches Some(TermEvent::Exit) && !r.1,
            Some(ChannelEvent::Data(d)) => r.0 matches Some(TermEvent::Data(x)) && x@ == d@ && r.1,
            Some(ChannelEvent::ExtendedData(d)) => r.0 matches Some(TermEvent::Data(x)) && x@ == d@
                && r.1,
            Some(ChannelEvent::Eof) => r.0 matches Some(TermEvent::Exit) && !r.1,
            Some(ChannelEvent::Close) => r.0 matches Some(TermEvent::Exit) && !r.1,
            Some(_) => r.0 is None && r.1,
        },
{
    match msg {
        None => (Some(TermEvent::Exit), false),
        Some(ChannelEvent::Data(d)) => (Some(TermEvent::Data(d)), true),
        Some(ChannelEvent::ExtendedData(d)) => (Some(TermEvent::Data(d)), true),
        Some(ChannelEvent::Eof) => (Some(TermEvent::Exit), false),
        Some(ChannelEvent::Close) => (Some(TermEvent::Exit), false),
        Some(_) => (None, true),
    }
}

/// The PTY terminal type requested for every terminal.
pub const TERM_TYPE: &'static str = "xterm-256color";

} // verus!
