//! The life of one connection: `Decoding -> Responding -> Closed`, with a
//! path from any state straight to `Closed`. The caller performs the I/O and
//! reports each event; the connection decides what comes next.
use vstd::prelude::*;
use crate::bytes::append_bytes;
use crate::decoder::{decode_request, spec_decode, DecodeModel, Decoded, Limits, Request};
use crate::error::ParserError;

verus! {

#[derive(Debug, Clone, Copy, PartialEq, Eq, Structural)]
pub enum ConnState {
    Decoding,
    Responding,
    Closed,
}

/// What the caller is to do next.
#[derive(Debug)]
pub enum Action {
    /// Read more bytes and report them, or report the end of the stream.
    ReadMore,
    /// Produce a response to this request, write it, and report the write.
    Respond(Request),
    /// Release the connection; the error, if any, is for the operator's log.
    Close(Option<ParserError>),
}

pub struct ConnModel {
    pub state: ConnState,
    pub buffer: Seq<u8>,
    pub limits: Limits,
}

/// One connection's state and the bytes it has received.
pub struct Connection {
    state: ConnState,
    buffer: Vec<u8>,
    limits: Limits,
}

/// The state that a decoding outcome leads to.
pub open spec fn state_after(d: DecodeModel) -> ConnState {
    match d {
        DecodeModel::Complete(_, _) => ConnState::Responding,
        DecodeModel::Incomplete => ConnState::Decoding,
        DecodeModel::Failed(_) => ConnState::Closed,
    }
}

/// Whether `a` is the action for decoding outcome `d`.
pub open spec fn action_for(a: Action, d: DecodeModel) -> bool {
    match d {
        DecodeModel::Complete(m, _) => a matches Action::Respond(req) && req@ == m,
        DecodeModel::Incomplete => a is ReadMore,
        DecodeModel::Failed(e) => a matches Action::Close(Some(x)) && x == e,
    }
}

/// At the end of the stream a decoding that still wants bytes cannot finish.
pub open spec fn at_end(d: DecodeModel) -> DecodeModel {
    match d {
        DecodeModel::Incomplete => DecodeModel::Failed(ParserError::UnexpectedEof),
        _ => d,
    }
}

impl View for Connection {
    type V = ConnModel;

    closed spec fn view(&self) -> ConnModel {
        ConnModel { state: self.state, buffer: self.buffer@, limits: self.limits }
    }
}

impl Connection {
    /// A connection that has just been accepted.
    pub fn new(limits: Limits) -> (r: Connection)
        ensures
            r@.state == ConnState::Decoding,
            r@.buffer == Seq::<u8>::empty(),
            r@.limits == limits,
    {
        Connection { state: ConnState::Decoding, buffer: Vec::new(), limits }
    }

    pub fn state(&self) -> (r: ConnState)
        ensures
            r == self@.state,
    {
        self.state
    }

    /// Bytes arrived. While decoding they are added to what was received and
    /// decoding is tried again; in any other state the connection closes.
    pub fn on_input(&mut self, chunk: &[u8]) -> (r: Action)
        ensures
            final(self)@.limits == old(self)@.limits,
            old(self)@.state == ConnState::Decoding ==> {
                let buf = old(self)@.buffer + chunk@;
                let d = spec_decode(buf, false, old(self)@.limits);
                &&& final(self)@.buffer == buf
                &&& final(self)@.state == state_after(d)
                &&& action_for(r, d)
            },
            old(self)@.state != ConnState::Decoding ==> {
                &&& final(self)@.state == ConnState::Closed
                &&& final(self)@.buffer == old(self)@.buffer
                &&& r matches Action::Close(None)
            },
    {
        if self.state != ConnState::Decoding {
            self.state = ConnState::Closed;
            return Action::Close(None);
        }
        append_bytes(&mut self.buffer, chunk);
        self.decide(false)
    }

    /// The stream ended. While decoding, what was received must hold a whole
    /// request; in any other state the connection closes.
    pub fn on_eof(&mut self) -> (r: Action)
        ensures
            final(self)@.limits == old(self)@.limits,
            final(self)@.buffer == old(self)@.buffer,
            old(self)@.state == ConnState::Decoding ==> {
                let d = at_end(spec_decode(old(self)@.buffer, true, old(self)@.limits));
                &&& final(self)@.state == state_after(d)
                &&& action_for(r, d)
            },
            old(self)@.state != ConnState::Decoding ==> {
                &&& final(self)@.state == ConnState::Closed
                &&& r matches Action::Close(None)
            },
    {
        if self.state != ConnState::Decoding {
            self.state = ConnState::Closed;
            return Action::Close(None);
        }
        let a = self.decide(true);
        match a {
            Action::ReadMore => {
                self.state = ConnState::Closed;
                Action::Close(Some(ParserError::UnexpectedEof))
            },
            _ => a,
        }
    }

    /// The response was written, fully or not: there is no second request on
    /// a connection, so it closes.
    pub fn on_written(&mut self) -> (r: Action)
        ensures
            final(self)@.state == ConnState::Closed,
            final(self)@.buffer == old(self)@.buffer,
            final(self)@.limits == old(self)@.limits,
            r matches Action::Close(None),
    {
        self.state = ConnState::Closed;
        Action::Close(None)
    }

    /// Tears the connection down (a timeout, a shutdown).
    pub fn close(&mut self)
        ensures
            final(self)@.state == ConnState::Closed,
            final(self)@.buffer == old(self)@.buffer,
            final(self)@.limits == old(self)@.limits,
    {
        self.state = ConnState::Closed;
    }

    fn decide(&mut self, at_eof: bool) -> (r: Action)
        ensures
            final(self)@.buffer == old(self)@.buffer,
            final(self)@.limits == old(self)@.limits,
            final(self)@.state == state_after(spec_decode(old(self)@.buffer, at_eof, old(self)@.limits)),
            action_for(r, spec_decode(old(self)@.buffer, at_eof, old(self)@.limits)),
    {
        match decode_request(self.buffer.as_slice(), at_eof, &self.limits) {
            Decoded::Complete(req, _) => {
                self.state = ConnState::Responding;
                Action::Respond(req)
            },
            Decoded::Incomplete => {
                self.state = ConnState::Decoding;
                Action::ReadMore
            },
            Decoded::Failed(e) => {
                self.state = ConnState::Closed;
                Action::Close(Some(e))
            },
        }
    }
}

} // verus!
