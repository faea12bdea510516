//! The notifications that a control-mode stream carries.
use vstd::prelude::*;

verus! {

/// Pane identifier, written `%N` on the wire.
pub type TmuxPaneId = u64;

/// Window identifier, written `@N` on the wire.
pub type TmuxWindowId = u64;

/// Session identifier, written `$N` on the wire.
pub type TmuxSessionId = u64;

/// The output of one command, framed by `%begin` and `%end` or `%error`.
#[derive(Debug, Clone, PartialEq, Eq)]
pub struct Guarded {
    pub error: bool,
    pub timestamp: i64,
    pub number: u64,
    pub flags: i64,
    pub output: String,
}

/// One notification of the control-mode stream.
#[derive(Debug, Clone, PartialEq, Eq)]
pub enum Event {
    Begin { timestamp: i64, number: u64, flags: i64 },
    End { timestamp: i64, number: u64, flags: i64 },
    Error { timestamp: i64, number: u64, flags: i64 },
    Guarded(Guarded),
    ClientDetached { client_name: String },
    ClientSessionChanged { client_name: String, session: TmuxSessionId, session_name: String },
    ConfigError { error: String },
    Continue { pane: TmuxPaneId },
    ExtendedOutput { pane: TmuxPaneId, text: Vec<u8> },
    Exit { reason: Option<String> },
    LayoutChange {
        window: TmuxWindowId,
        layout: String,
        visible_layout: Option<String>,
        raw_flags: Option<String>,
    },
    Message { message: String },
    Output { pane: TmuxPaneId, text: Vec<u8> },
    PaneModeChanged { pane: TmuxPaneId },
    PasteBufferChanged { buffer: String },
    PasteBufferDeleted { buffer: String },
    Pause { pane: TmuxPaneId },
    SessionChanged { session: TmuxSessionId, name: String },
    SessionRenamed { name: String },
    SessionsChanged,
    SessionWindowChanged { session: TmuxSessionId, window: TmuxWindowId },
    SubscriptionChanged,
    UnlinkedWindowAdd { window: TmuxWindowId },
    UnlinkedWindowClose { window: TmuxWindowId },
    UnlinkedWindowRenamed { window: TmuxWindowId },
    WindowAdd { window: TmuxWindowId },
    WindowClose { window: TmuxWindowId },
    WindowPaneChanged { window: TmuxWindowId, pane: TmuxPaneId },
    WindowRenamed { window: TmuxWindowId, name: String },
}

/// Mathematical value of a [`Guarded`] record.
pub struct GuardedV {
    pub error: bool,
    pub timestamp: i64,
    pub number: u64,
    pub flags: i64,
    pub output: Seq<char>,
}

/// Mathematical value of an [`Event`]: text as characters, payloads as bytes.
pub enum EventV {
    Begin { timestamp: i64, number: u64, flags: i64 },
    End { timestamp: i64, number: u64, flags: i64 },
    Error { timestamp: i64, number: u64, flags: i64 },
    Guarded(GuardedV),
    ClientDetached { client_name: Seq<char> },
    ClientSessionChanged { client_name: Seq<char>, session: u64, session_name: Seq<char> },
    ConfigError { error: Seq<char> },
    Continue { pane: u64 },
    ExtendedOutput { pane: u64, text: Seq<u8> },
    Exit { reason: Option<Seq<char>> },
    LayoutChange {
        window: u64,
        layout: Seq<char>,
        visible_layout: Option<Seq<char>>,
        raw_flags: Option<Seq<char>>,
    },
    Message { message: Seq<char> },
    Output { pane: u64, text: Seq<u8> },
    PaneModeChanged { pane: u64 },
    PasteBufferChanged { buffer: Seq<char> },
    PasteBufferDeleted { buffer: Seq<char> },
    Pause { pane: u64 },
    SessionChanged { session: u64, name: Seq<char> },
    SessionRenamed { name: Seq<char> },
    SessionsChanged,
    SessionWindowChanged { session: u64, window: u64 },
    SubscriptionChanged,
    UnlinkedWindowAdd { window: u64 },
    UnlinkedWindowClose { window: u64 },
    UnlinkedWindowRenamed { window: u64 },
    WindowAdd { window: u64 },
    WindowClose { window: u64 },
    WindowPaneChanged { window: u64, pane: u64 },
    WindowRenamed { window: u64, name: Seq<char> },
}

/// The characters of an optional string.
pub open spec fn opt_text(o: Option<String>) -> Option<Seq<char>> {
    match o {
        Some(s) => Some(s@),
        None => None,
    }
}

impl View for Guarded {
    type V = GuardedV;

    open spec fn view(&self) -> GuardedV {
        GuardedV {
            error: self.error,
            timestamp: self.timestamp,
            number: self.number,
            flags: self.flags,
            output: self.output@,
        }
    }
}

impl View for Event {
    type V = EventV;

    open spec fn view(&self) -> EventV {
        match self {
            Event::Begin { timestamp, number, flags } => EventV::Begin {
                timestamp: *timestamp,
                number: *number,
                flags: *flags,
            },
            Event::End { timestamp, number, flags } => EventV::End {
                timestamp: *timestamp,
                number: *number,
                flags: *flags,
            },
            Event::Error { timestamp, number, flags } => EventV::Error {
                timestamp: *timestamp,
                number: *number,
                flags: *flags,
            },
            Event::Guarded(g) => EventV::Guarded(g@),
            Event::ClientDetached { client_name } => EventV::ClientDetached {
                client_name: client_name@,
            },
            Event::ClientSessionChanged { client_name, session, session_name } =>
                EventV::ClientSessionChanged {
                client_name: client_name@,
                session: *session,
                session_name: session_name@,
            },
            Event::ConfigError { error } => EventV::ConfigError { error: error@ },
            Event::Continue { pane } => EventV::Continue { pane: *pane },
            Event::ExtendedOutput { pane, text } => EventV::ExtendedOutput {
                pane: *pane,
                text: text@,
            },
            Event::Exit { reason } => EventV::Exit { reason: opt_text(*reason) },
            Event::LayoutChange { window, layout, visible_layout, raw_flags } =>
                EventV::LayoutChange {
                window: *window,
                layout: layout@,
                visible_layout: opt_text(*visible_layout),
                raw_flags: opt_text(*raw_flags),
            },
            Event::Message { message } => EventV::Message { message: message@ },
            Event::Output { pane, text } => EventV::Output { pane: *pane, text: text@ },
            Event::PaneModeChanged { pane } => EventV::PaneModeChanged { pane: *pane },
            Event::PasteBufferChanged { buffer } => EventV::PasteBufferChanged {
                buffer: buffer@,
            },
            Event::PasteBufferDeleted { buffer } => EventV::PasteBufferDeleted {
                buffer: buffer@,
            },
            Event::Pause { pane } => EventV::Pause { pane: *pane },
            Event::SessionChanged { session, name } => EventV::SessionChanged {
                session: *session,
                name: name@,
            },
            Event::SessionRenamed { name } => EventV::SessionRenamed { name: name@ },
            Event::SessionsChanged => EventV::SessionsChanged,
            Event::SessionWindowChanged { session, window } => EventV::SessionWindowChanged {
                session: *session,
                window: *window,
            },
            Event::SubscriptionChanged => EventV::SubscriptionChanged,
            Event::UnlinkedWindowAdd { window } => EventV::UnlinkedWindowAdd { window: *window },
            Event::UnlinkedWindowClose { window } => EventV::UnlinkedWindowClose {
                window: *window,
            },
            Event::UnlinkedWindowRenamed { window } => EventV::UnlinkedWindowRenamed {
                window: *window,
            },
            Event::WindowAdd { window } => EventV::WindowAdd { window: *window },
            Event::WindowClose { window } => EventV::WindowClose { window: *window },
            Event::WindowPaneChanged { window, pane } => EventV::WindowPaneChanged {
                window: *window,
                pane: *pane,
            },
            Event::WindowRenamed { window, name } => EventV::WindowRenamed {
                window: *window,
                name: name@,
            },
        }
    }
}

/// The values of a list of events.
pub open spec fn events_view(v: Seq<Event>) -> Seq<EventV> {
    v.map_values(|e: Event| e@)
}

} // verus!
