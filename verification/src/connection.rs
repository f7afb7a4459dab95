//! The connection state machine. It owns no stream: a driver performs each
//! action that the machine asks for and reports what happened as the next
//! event.

use crate::frame::{
    decode_frame, decode_spec, encode_frame, encode_spec, frame_at, frame_len, frame_progress,
    next_boundary, violates_protocol, Frame, FrameView, Opcode, Progress, WsError,
};
use crate::handshake::{accept_token, response_with};
use crate::request::{
    head_complete, is_head_complete, line_at, request_path, route, route_spec, upgrade_key,
    upgrade_path, Route, RouteView,
};
use vstd::prelude::*;

verus! {

/// Where a connection stands.
#[derive(Clone, Copy, Debug, PartialEq, Eq, Structural)]
pub enum ConnState {
    /// The head of the request is being read.
    AwaitingRequest,
    /// The response that accepts the upgrade is being written.
    Handshaking,
    /// Frames are read and echoed.
    Streaming,
    /// The connection is over.
    Closed,
}

/// What the driver reports.
#[derive(Clone, Debug, PartialEq, Eq)]
pub enum Event {
    /// Bytes arrived from the peer.
    Data(Vec<u8>),
    /// The bytes of the last `Write` went out.
    Written,
    /// The peer closed the stream.
    PeerClosed,
    /// Reading or writing failed.
    Failed,
}

/// An event as a mathematical value.
pub enum EventView {
    Data(Seq<u8>),
    Written,
    PeerClosed,
    Failed,
}

impl View for Event {
    type V = EventView;

    open spec fn view(&self) -> EventView {
        match self {
            Event::Data(bytes) => EventView::Data(bytes@),
            Event::Written => EventView::Written,
            Event::PeerClosed => EventView::PeerClosed,
            Event::Failed => EventView::Failed,
        }
    }
}

/// What the driver is to do next.
#[derive(Clone, Debug, PartialEq, Eq)]
pub enum Action {
    /// Read whatever part of the request arrives next and report it.
    ReadRequest,
    /// Read exactly this many bytes and report them.
    Read(u64),
    /// Write these bytes and report `Written`.
    Write(Vec<u8>),
    /// This frame arrived. Write these bytes, which echo its payload in a
    /// text frame, and report `Written`.
    Echo(Frame, Vec<u8>),
    /// Answer with the static resource at this path; the connection is over.
    Serve(Vec<u8>),
    /// Answer that there is no such resource; the connection is over.
    ServeNotFound,
    /// Release the stream, for this reason, without writing anything more.
    Close(WsError),
}

/// An action as a mathematical value.
pub enum ActionView {
    ReadRequest,
    Read(int),
    Write(Seq<u8>),
    Echo(FrameView, Seq<u8>),
    Serve(Seq<u8>),
    ServeNotFound,
    Close(WsError),
}

impl View for Action {
    type V = ActionView;

    open spec fn view(&self) -> ActionView {
        match self {
            Action::ReadRequest => ActionView::ReadRequest,
            Action::Read(count) => ActionView::Read(*count as int),
            Action::Write(bytes) => ActionView::Write(bytes@),
            Action::Echo(frame, bytes) => ActionView::Echo(frame@, bytes@),
            Action::Serve(path) => ActionView::Serve(path@),
            Action::ServeNotFound => ActionView::ServeNotFound,
            Action::Close(reason) => ActionView::Close(*reason),
        }
    }
}

/// One connection: its state, the bytes that were read and not yet used up,
/// and the longest payload that it accepts.
#[derive(Clone, Debug, PartialEq, Eq)]
pub struct Connection {
    pub state: ConnState,
    pub buffer: Vec<u8>,
    pub max_payload: u64,
}

/// A connection as a mathematical value.
pub struct ConnectionView {
    pub state: ConnState,
    pub buffer: Seq<u8>,
    pub max_payload: nat,
}

impl View for Connection {
    type V = ConnectionView;

    open spec fn view(&self) -> ConnectionView {
        ConnectionView {
            state: self.state,
            buffer: self.buffer@,
            max_payload: self.max_payload as nat,
        }
    }
}

/// The connection in state `state` with `buffer` as its unused bytes.
pub open spec fn moved(c: ConnectionView, state: ConnState, buffer: Seq<u8>) -> ConnectionView {
    ConnectionView { state, buffer, max_payload: c.max_payload }
}

/// The end of a connection: nothing is kept and nothing more is written.
pub open spec fn closing(c: ConnectionView, reason: WsError) -> (ConnectionView, ActionView) {
    (moved(c, ConnState::Closed, Seq::empty()), ActionView::Close(reason))
}

/// What follows from the request read so far, once no more of it is
/// awaited: an upgrade is answered with the response that accepts it, any
/// other request is handed to the static side, which answers it, and ends
/// the connection. What was read beyond the request is dropped.
pub open spec fn dispatch_spec(c: ConnectionView, request: Seq<u8>) -> (
    ConnectionView,
    ActionView,
) {
    match route_spec(request) {
        RouteView::Upgrade(key) => (
            moved(c, ConnState::Handshaking, Seq::empty()),
            ActionView::Write(response_with(accept_token(key))),
        ),
        RouteView::Static(path) => (
            moved(c, ConnState::Closed, Seq::empty()),
            ActionView::Serve(path),
        ),
        RouteView::NotFound => (
            moved(c, ConnState::Closed, Seq::empty()),
            ActionView::ServeNotFound,
        ),
    }
}

/// What follows from the bytes of the frame stream read so far: a violation
/// ends the connection, a frame that is not whole yet asks for the bytes up
/// to the decoder's next decision, and a whole frame is taken from the bytes,
/// handed out, and its payload echoed in a text frame.
pub open spec fn advance_spec(c: ConnectionView, bytes: Seq<u8>) -> (ConnectionView, ActionView) {
    if violates_protocol(bytes, c.max_payload) {
        closing(c, WsError::ProtocolViolation)
    } else if bytes.len() < next_boundary(bytes) {
        (moved(c, ConnState::Streaming, bytes), ActionView::Read(next_boundary(bytes) - bytes.len()))
    } else {
        (
            moved(c, ConnState::Streaming, bytes.skip(frame_len(bytes))),
            ActionView::Echo(frame_at(bytes), encode_spec(Opcode::Text, frame_at(bytes).payload)),
        )
    }
}

/// The transition function: the state after an event, and the action that
/// answers it. An event that the state does not wait for ends the
/// connection as a failure of the stream.
pub open spec fn step_spec(c: ConnectionView, event: EventView) -> (ConnectionView, ActionView) {
    match c.state {
        ConnState::Closed => (c, ActionView::Close(WsError::ConnectionClosed)),
        ConnState::AwaitingRequest => match event {
            EventView::Data(bytes) => if head_complete(c.buffer + bytes) {
                dispatch_spec(c, c.buffer + bytes)
            } else {
                (moved(c, ConnState::AwaitingRequest, c.buffer + bytes), ActionView::ReadRequest)
            },
            EventView::PeerClosed => dispatch_spec(c, c.buffer),
            _ => closing(c, WsError::IoFailure),
        },
        ConnState::Handshaking => match event {
            EventView::Written => advance_spec(c, Seq::empty()),
            EventView::PeerClosed => closing(c, WsError::ConnectionClosed),
            _ => closing(c, WsError::IoFailure),
        },
        ConnState::Streaming => match event {
            EventView::Data(bytes) => advance_spec(c, c.buffer + bytes),
            EventView::Written => advance_spec(c, c.buffer),
            EventView::PeerClosed => closing(c, WsError::ConnectionClosed),
            EventView::Failed => closing(c, WsError::IoFailure),
        },
    }
}

impl Connection {
    /// A connection that awaits its request and accepts payloads of up to
    /// `max_payload` bytes. Its driver starts with `Action::ReadRequest`.
    pub fn new(max_payload: u64) -> (conn: Connection)
        ensures
            conn@ == (ConnectionView {
                state: ConnState::AwaitingRequest,
                buffer: Seq::empty(),
                max_payload: max_payload as nat,
            }),
    {
        Connection { state: ConnState::AwaitingRequest, buffer: Vec::new(), max_payload }
    }

    /// Ends the connection.
    fn close(&mut self, reason: WsError) -> (action: Action)
        ensures
            (final(self)@, action@) == closing(old(self)@, reason),
    {
        self.state = ConnState::Closed;
        self.buffer = Vec::new();
        Action::Close(reason)
    }

    /// Routes the request in the buffer.
    fn dispatch(&mut self) -> (action: Action)
        ensures
            (final(self)@, action@) == dispatch_spec(old(self)@, old(self).buffer@),
    {
        let route: Route = route(self.buffer.as_slice());
        self.buffer = Vec::new();
        match route {
            Route::Upgrade(request) => {
                self.state = ConnState::Handshaking;
                Action::Write(request.response())
            },
            Route::Static(path) => {
                self.state = ConnState::Closed;
                Action::Serve(path)
            },
            Route::NotFound => {
                self.state = ConnState::Closed;
                Action::ServeNotFound
            },
        }
    }

    /// Takes the next decision on the frame stream in the buffer.
    fn advance(&mut self) -> (action: Action)
        ensures
            (final(self)@, action@) == advance_spec(old(self)@, old(self).buffer@),
    {
        match frame_progress(self.buffer.as_slice(), self.max_payload) {
            Progress::Rejected(reason) => self.close(reason),
            Progress::Need(count) => {
                self.state = ConnState::Streaming;
                Action::Read(count)
            },
            Progress::Complete(len) => {
                match decode_frame(self.buffer.as_slice(), self.max_payload) {
                    Ok((frame, used)) => {
                        let echo: Vec<u8> = encode_frame(Opcode::Text, frame.payload.as_slice());
                        let rest: Vec<u8> = self.buffer.split_off(used);
                        self.buffer = rest;
                        self.state = ConnState::Streaming;
                        Action::Echo(frame, echo)
                    },
                    Err(reason) => self.close(reason),
                }
            },
        }
    }

    /// Takes an event and says what the driver is to do next.
    pub fn step(&mut self, event: Event) -> (action: Action)
        ensures
            (final(self)@, action@) == step_spec(old(self)@, event@),
    {
        match self.state {
            ConnState::Closed => Action::Close(WsError::ConnectionClosed),
            ConnState::AwaitingRequest => match event {
                Event::Data(bytes) => {
                    let mut bytes: Vec<u8> = bytes;
                    self.buffer.append(&mut bytes);
                    if is_head_complete(self.buffer.as_slice()) {
                        self.dispatch()
                    } else {
                        Action::ReadRequest
                    }
                },
                Event::PeerClosed => self.dispatch(),
                _ => self.close(WsError::IoFailure),
            },
            ConnState::Handshaking => match event {
                Event::Written => {
                    self.buffer = Vec::new();
                    self.advance()
                },
                Event::PeerClosed => self.close(WsError::ConnectionClosed),
                _ => self.close(WsError::IoFailure),
            },
            ConnState::Streaming => match event {
                Event::Data(bytes) => {
                    let mut bytes: Vec<u8> = bytes;
                    self.buffer.append(&mut bytes);
                    self.advance()
                },
                Event::Written => self.advance(),
                Event::PeerClosed => self.close(WsError::ConnectionClosed),
                Event::Failed => self.close(WsError::IoFailure),
            },
        }
    }
}

/// A closed connection stays as it is, whatever is reported, and asks for
/// nothing but to be released.
pub proof fn lemma_closed_is_terminal(c: ConnectionView, event: EventView)
    requires
        c.state == ConnState::Closed,
    ensures
        step_spec(c, event) == (c, ActionView::Close(WsError::ConnectionClosed)),
{
}

/// The states are passed in order: the request is awaited until it is
/// routed, the handshake follows only the request and only for an upgrade,
/// and frames are streamed only once the response of the handshake is
/// written.
pub proof fn lemma_states_in_order(c: ConnectionView, event: EventView)
    ensures
        ({
            let next = step_spec(c, event).0;
            &&& next.max_payload == c.max_payload
            &&& next.state == ConnState::AwaitingRequest ==> c.state == ConnState::AwaitingRequest
            &&& next.state == ConnState::Handshaking ==> c.state == ConnState::AwaitingRequest
            &&& next.state == ConnState::Streaming ==> c.state == ConnState::Streaming || (c.state
                == ConnState::Handshaking && event == EventView::Written)
        }),
{
}

/// The handshake is entered exactly when the request is routed to the
/// upgrade, and what is written then is the response that accepts the
/// client's key.
pub proof fn lemma_handshake_on_upgrade(c: ConnectionView, event: EventView)
    requires
        step_spec(c, event).0.state == ConnState::Handshaking,
    ensures
        exists|request: Seq<u8>, key: Seq<u8>|
            route_spec(request) == RouteView::Upgrade(key) && step_spec(c, event).1
                == ActionView::Write(response_with(accept_token(key))),
{
    let request = match event {
        EventView::Data(bytes) => c.buffer + bytes,
        _ => c.buffer,
    };
    let key = route_spec(request)->Upgrade_0;
    assert(route_spec(request) == RouteView::Upgrade(key) && step_spec(c, event).1
        == ActionView::Write(response_with(accept_token(key))));
}

/// Every failure ends the connection at once: a failed read or write, a
/// stream that the peer closed and a violation of the protocol all leave the
/// connection closed, and the action that reports them writes nothing.
pub proof fn lemma_failure_is_terminal(c: ConnectionView, event: EventView)
    ensures
        step_spec(c, event).1 is Close ==> step_spec(c, event).0.state == ConnState::Closed,
        event == EventView::Failed ==> step_spec(c, event).1 is Close,
        event == EventView::PeerClosed && c.state != ConnState::AwaitingRequest ==> step_spec(
            c,
            event,
        ).1 is Close,
        forall|bytes: Seq<u8>|
            c.state == ConnState::Streaming && event == EventView::Data(bytes)
                && violates_protocol(c.buffer + bytes, c.max_payload) ==> step_spec(c, event)
                == closing(c, WsError::ProtocolViolation),
{
}

/// While frames are streamed, a frame that arrives whole is echoed: the
/// bytes that come after it are kept, the frame is handed out, and what is
/// written is a text frame with the frame's unmasked payload.
pub proof fn lemma_whole_frame_is_echoed(c: ConnectionView, bytes: Seq<u8>)
    requires
        c.state == ConnState::Streaming,
        decode_spec(c.buffer + bytes, c.max_payload) is Ok,
    ensures
        ({
            let (frame, used) = decode_spec(c.buffer + bytes, c.max_payload)->Ok_0;
            step_spec(c, EventView::Data(bytes)) == (
                moved(c, ConnState::Streaming, (c.buffer + bytes).skip(used)),
                ActionView::Echo(frame, encode_spec(Opcode::Text, frame.payload)),
            )
        }),
{
}

/// Every request is answered: while the request is read, bytes that arrive
/// and the end of the peer's sending lead to a further read, to the response
/// of the handshake or to the static side, never to a silent close. A
/// request for the upgrade path that brings no key goes to the static side
/// with that path.
pub proof fn lemma_request_is_answered(c: ConnectionView, event: EventView)
    requires
        c.state == ConnState::AwaitingRequest,
        event is Data || event is PeerClosed,
    ensures
        !(step_spec(c, event).1 is Close),
        !(step_spec(c, event).1 is Read),
        !(step_spec(c, event).1 is Echo),
        step_spec(c, event).1 is Write ==> step_spec(c, event).0.state == ConnState::Handshaking,
        step_spec(c, event).1 is Serve || step_spec(c, event).1 is ServeNotFound ==> step_spec(
            c,
            event,
        ).0.state == ConnState::Closed,
{
}

/// A request for the upgrade path without a key is refused the upgrade and
/// answered by the static side.
pub proof fn lemma_upgrade_without_key(c: ConnectionView, request: Seq<u8>)
    requires
        request_path(line_at(request, 0)) == Some(upgrade_path()),
        upgrade_key(request) is None,
    ensures
        route_spec(request) == RouteView::Static(upgrade_path()),
        dispatch_spec(c, request) == (
            moved(c, ConnState::Closed, Seq::empty()),
            ActionView::Serve(upgrade_path()),
        ),
{
}

/// A connection that streams frames and holds no unused bytes is, after a
/// frame that came whole and alone was echoed, as it was before: so every
/// frame of a row of frames is echoed in the same way.
pub proof fn lemma_frames_in_a_row(c: ConnectionView, bytes: Seq<u8>)
    requires
        c.state == ConnState::Streaming,
        c.buffer.len() == 0,
        decode_spec(bytes, c.max_payload) is Ok,
        decode_spec(bytes, c.max_payload)->Ok_0.1 == bytes.len(),
    ensures
        ({
            let frame = decode_spec(bytes, c.max_payload)->Ok_0.0;
            &&& step_spec(c, EventView::Data(bytes)) == (
                c,
                ActionView::Echo(frame, encode_spec(Opcode::Text, frame.payload)),
            )
            &&& step_spec(c, EventView::Written) == (c, ActionView::Read(2))
        }),
{
    assert(c.buffer + bytes =~= bytes);
    assert(bytes.skip(bytes.len() as int) =~= c.buffer);
}

/// The connection after a row of events, and the actions that answered
/// them, in order.
pub open spec fn trace(c: ConnectionView, events: Seq<EventView>) -> (
    ConnectionView,
    Seq<ActionView>,
)
    decreases events.len(),
{
    if events.len() == 0 {
        (c, Seq::empty())
    } else {
        let before = trace(c, events.drop_last());
        let last = step_spec(before.0, events.last());
        (last.0, before.1.push(last.1))
    }
}

/// What a driver reports while frames arrive one by one: each frame whole in
/// one event, then that its echo was written.
pub open spec fn frame_events(frames: Seq<Seq<u8>>) -> Seq<EventView>
    decreases frames.len(),
{
    if frames.len() == 0 {
        Seq::empty()
    } else {
        frame_events(frames.drop_last()).push(EventView::Data(frames.last())).push(
            EventView::Written,
        )
    }
}

/// The actions that answer a row of frames: for each frame its echo, then
/// the read of the first two bytes of the next frame.
pub open spec fn echo_actions(frames: Seq<Seq<u8>>) -> Seq<ActionView>
    decreases frames.len(),
{
    if frames.len() == 0 {
        Seq::empty()
    } else {
        echo_actions(frames.drop_last()).push(
            ActionView::Echo(
                frame_at(frames.last()),
                encode_spec(Opcode::Text, frame_at(frames.last()).payload),
            ),
        ).push(ActionView::Read(2))
    }
}

/// Any number of frames in a row are echoed one by one, each with its own
/// payload, and the connection goes on streaming with nothing left over.
pub proof fn lemma_row_of_frames(c: ConnectionView, frames: Seq<Seq<u8>>)
    requires
        c.state == ConnState::Streaming,
        c.buffer.len() == 0,
        forall|i: int|
            0 <= i < frames.len() ==> decode_spec(#[trigger] frames[i], c.max_payload) == Ok::<
                (FrameView, int),
                WsError,
            >((frame_at(frames[i]), frames[i].len() as int)),
    ensures
        trace(c, frame_events(frames)) == (c, echo_actions(frames)),
    decreases frames.len(),
{
    if frames.len() > 0 {
        let earlier = frame_events(frames.drop_last());
        let arrived = earlier.push(EventView::Data(frames.last()));
        assert forall|i: int| 0 <= i < frames.drop_last().len() implies decode_spec(
            #[trigger] frames.drop_last()[i],
            c.max_payload,
        ) == Ok::<(FrameView, int), WsError>(
            (frame_at(frames.drop_last()[i]), frames.drop_last()[i].len() as int),
        ) by {
            assert(frames.drop_last()[i] == frames[i]);
        }
        lemma_row_of_frames(c, frames.drop_last());
        lemma_frames_in_a_row(c, frames.last());
        let events = frame_events(frames);
        let echo = ActionView::Echo(
            frame_at(frames.last()),
            encode_spec(Opcode::Text, frame_at(frames.last()).payload),
        );
        assert(arrived.drop_last() =~= earlier);
        assert(arrived.last() == EventView::Data(frames.last()));
        assert(trace(c, arrived) == (c, echo_actions(frames.drop_last()).push(echo)));
        assert(events.drop_last() =~= arrived);
        assert(events.last() == EventView::Written);
    }
}

} // verus!
