//! Sessions with a guest: what the frames that it sends come to.

use vstd::prelude::*;

use crate::text::string_from_utf8_lossy;

verus! {

use crate::text::utf8_lossy;

/// Events of an interactive session.
#[derive(Debug)]
pub enum ShellEvent {
    /// Terminal output.
    Output(Vec<u8>),
    /// The process ended with this code.
    Exit(i32),
    /// The guest reported an error.
    Error(String),
}

/// What was read from a session's stream.
pub enum ShellFrame {
    /// Output of the process.
    Stdout(Vec<u8>),
    /// The process ended; the code, if the frame has one.
    Exit(Option<i32>),
    /// An error message.
    Error(Vec<u8>),
    /// A frame of another sort.
    Other,
    /// The stream is at its end or cannot be read.
    End,
}

/// The reading side of an interactive session.
pub struct ShellReader {
    /// More frames are read.
    pub open: bool,
}

impl ShellReader {
    /// A session before its first frame.
    pub fn new() -> (r: Self)
        ensures
            r.open,
    {
        ShellReader { open: true }
    }

    /// The event that a frame comes to. The session ends with the process, with
    /// an error and with the stream. An exit without a code counts as 0, and
    /// frames of other sorts are skipped.
    pub fn frame(&mut self, frame: ShellFrame) -> (r: Option<ShellEvent>)
        ensures
            final(self).open == (old(self).open && (frame is Stdout || frame is Other)),
            match frame {
                ShellFrame::Stdout(data) => r == Some(ShellEvent::Output(data)),
                ShellFrame::Exit(code) => r == Some(
                    ShellEvent::Exit(
                        match code {
                            Some(c) => c,
                            None => 0,
                        },
                    ),
                ),
                ShellFrame::Error(data) => r matches Some(ShellEvent::Error(msg)) && msg@
                    == utf8_lossy(data@) && (vstd::utf8::valid_utf8(data@) ==> msg@
                    == vstd::utf8::decode_utf8(data@)),
                ShellFrame::Other => r is None,
                ShellFrame::End => r is None,
            },
    {
        match frame {
            ShellFrame::Stdout(data) => Some(ShellEvent::Output(data)),
            ShellFrame::Exit(code) => {
                self.open = false;
                Some(
                    ShellEvent::Exit(
                        match code {
                            Some(c) => c,
                            None => 0,
                        },
                    ),
                )
            },
            ShellFrame::Error(data) => {
                self.open = false;
                Some(ShellEvent::Error(string_from_utf8_lossy(data.as_slice())))
            },
            ShellFrame::Other => None,
            ShellFrame::End => {
                self.open = false;
                None
            },
        }
    }

    /// Takes up whether an event found a receiver. Without one the session
    /// ends.
    pub fn delivered(&mut self, received: bool)
        ensures
            final(self).open == (old(self).open && received),
    {
        if !received {
            self.open = false;
        }
    }
}

/// What was read from a watch's stream.
pub enum WatchFrame<E> {
    /// A file system event, if the frame holds one.
    Event(Option<E>),
    /// A frame of another sort.
    Other,
    /// The stream is at its end or cannot be read.
    End,
}

/// The reading side of a watch.
pub struct WatchReceiver {
    /// More frames are read.
    pub open: bool,
}

impl WatchReceiver {
    /// A watch before its first frame.
    pub fn new() -> (r: Self)
        ensures
            r.open,
    {
        WatchReceiver { open: true }
    }

    /// The event to pass on. A watch ends with its stream; a frame that holds no
    /// event, or is of another sort, is skipped.
    pub fn frame<E>(&mut self, frame: WatchFrame<E>) -> (r: Option<E>)
        ensures
            final(self).open == (old(self).open && !(frame is End)),
            r == (match frame {
                WatchFrame::Event(e) => e,
                _ => None,
            }),
    {
        match frame {
            WatchFrame::Event(e) => e,
            WatchFrame::Other => None,
            WatchFrame::End => {
                self.open = false;
                None
            },
        }
    }

    /// Takes up whether an event found a receiver. Without one the watch ends.
    pub fn delivered(&mut self, received: bool)
        ensures
            final(self).open == (old(self).open && received),
    {
        if !received {
            self.open = false;
        }
    }
}

/// Output goes through a session unchanged. The session ends with an exit, whose
/// code is passed on, with an error, whose text is, and with the stream; it goes
/// on after everything else, unless it was over or no one receives any more.
pub proof fn law_what_a_session_passes_on(
    reader: &mut ShellReader,
    frame: ShellFrame,
    event: Option<ShellEvent>,
    later: &mut ShellReader,
    received: bool,
)
    requires
        call_ensures(ShellReader::frame, (reader, frame), event),
        call_ensures(ShellReader::delivered, (later, received), ()),
        *old(later) == *final(reader),
    ensures
        match event {
            Some(ShellEvent::Output(data)) => frame matches ShellFrame::Stdout(d) && d@ == data@,
            Some(ShellEvent::Exit(code)) => frame matches ShellFrame::Exit(c) && (c matches Some(x)
                ==> code == x) && (c is None ==> code == 0),
            Some(ShellEvent::Error(text)) => frame matches ShellFrame::Error(bytes) && text@
                == utf8_lossy(bytes@),
            None => frame is Other || frame is End,
        },
        final(later).open <==> old(reader).open && received && (frame is Stdout || frame is Other),
{
}

/// A new session and a new watch are open, and once one is over it stays over.
pub proof fn law_sessions_end_for_good<E>(
    fresh: ShellReader,
    other: WatchReceiver,
    reader: &mut ShellReader,
    frame: ShellFrame,
    event: Option<ShellEvent>,
    watch: &mut WatchReceiver,
    seen: WatchFrame<E>,
    found: Option<E>,
)
    requires
        call_ensures(ShellReader::new, (), fresh),
        call_ensures(WatchReceiver::new, (), other),
        call_ensures(ShellReader::frame, (reader, frame), event),
        call_ensures(WatchReceiver::frame::<E>, (watch, seen), found),
    ensures
        fresh.open && other.open,
        !old(reader).open ==> !final(reader).open,
        !old(watch).open ==> !final(watch).open,
{
}

/// A watch passes on every event that a frame holds and nothing else, and it goes on
/// until the stream is at its end or no one receives any more.
pub proof fn law_what_a_watch_passes_on<E>(
    watch: &mut WatchReceiver,
    frame: WatchFrame<E>,
    event: Option<E>,
    later: &mut WatchReceiver,
    received: bool,
)
    requires
        call_ensures(WatchReceiver::frame::<E>, (watch, frame), event),
        call_ensures(WatchReceiver::delivered, (later, received), ()),
        *old(later) == *final(watch),
    ensures
        forall|e: E| event == Some(e) <==> frame == WatchFrame::Event(Some(e)),
        final(later).open <==> old(watch).open && received && !(frame is End),
{
}

} // verus!
