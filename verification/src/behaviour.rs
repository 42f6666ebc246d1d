//! The behaviour script: the test author's description of how the mock peer
//! must react to each inbound packet shape.
use crate::rpc::{ResponseBody, ResponseBodyV};
use std::collections::VecDeque;
use vstd::prelude::*;

verus! {

/// The two configuration shapes: a fixed reaction per packet category, or an
/// ordered queue consumed one entry per packet.
pub enum Behaviours {
    Declarative(DeclarativeBehaviour),
    Sequential(VecDeque<Behaviour>),
}

/// One fixed action list per packet category, applied without consumption.
pub struct DeclarativeBehaviour {
    pub whoareyou: Vec<Action>,
    pub handshake: Vec<Action>,
    pub message: Vec<Action>,
    pub message_without_session: Vec<Action>,
}

/// One queued reaction: the shape the next packet must have, and what to do.
pub struct Behaviour {
    pub expect: Expect,
    pub actions: Vec<Action>,
}

/// The shape an inbound packet must match.
#[derive(Debug, Clone, Copy, PartialEq, Eq, Structural)]
pub enum Expect {
    WhoAreYou,
    MessageWithoutSession,
    Handshake(Request),
    Message(Request),
}

/// The request kinds the script can distinguish.
#[derive(Debug, Clone, Copy, PartialEq, Eq, Structural)]
pub enum Request {
    FindNode,
    Ping,
}

/// One scripted reaction, executed in list order for one packet.
#[derive(Clone)]
pub enum Action {
    /// Drop the packet; the reason is advisory only.
    Ignore(String),
    /// Send a fresh challenge referencing the inbound nonce, and record it.
    SendWhoAreYou,
    /// Complete the handshake against the pending challenge for the sender.
    EstablishSession,
    /// Reply to the just-decrypted request.
    SendResponse(Response),
    /// Decrypt the current message and retain the request for correlation.
    CaptureRequest,
}

/// What to send back: a protocol-correct default, or scripted responses.
#[derive(Clone)]
pub enum Response {
    Default,
    Custom(Vec<CustomResponse>),
}

/// Which earlier request a scripted response must echo.
#[derive(Debug, Clone, Copy, PartialEq, Eq, Structural)]
pub enum CustomResponseId {
    CapturedRequestId(usize),
}

/// A scripted response: the captured request to echo, and the body to send.
#[derive(Clone)]
pub struct CustomResponse {
    pub id: CustomResponseId,
    pub body: ResponseBody,
}

// Spec-level images of the script types.

pub enum BehavioursV {
    Declarative(DeclarativeV),
    Sequential(Seq<BehaviourV>),
}

pub struct DeclarativeV {
    pub whoareyou: Seq<ActionV>,
    pub handshake: Seq<ActionV>,
    pub message: Seq<ActionV>,
    pub message_without_session: Seq<ActionV>,
}

pub struct BehaviourV {
    pub expect: Expect,
    pub actions: Seq<ActionV>,
}

pub enum ActionV {
    Ignore(Seq<char>),
    SendWhoAreYou,
    EstablishSession,
    SendResponse(ResponseActV),
    CaptureRequest,
}

pub enum ResponseActV {
    Default,
    Custom(Seq<CustomResponseV>),
}

pub struct CustomResponseV {
    pub index: usize,
    pub body: ResponseBodyV,
}

impl View for CustomResponse {
    type V = CustomResponseV;

    open spec fn view(&self) -> CustomResponseV {
        match self.id {
            CustomResponseId::CapturedRequestId(index) => CustomResponseV {
                index,
                body: self.body@,
            },
        }
    }
}

impl View for Response {
    type V = ResponseActV;

    open spec fn view(&self) -> ResponseActV {
        match self {
            Response::Default => ResponseActV::Default,
            Response::Custom(rs) => ResponseActV::Custom(
                rs@.map_values(|r: CustomResponse| r@),
            ),
        }
    }
}

impl View for Action {
    type V = ActionV;

    open spec fn view(&self) -> ActionV {
        match self {
            Action::Ignore(reason) => ActionV::Ignore(reason@),
            Action::SendWhoAreYou => ActionV::SendWhoAreYou,
            Action::EstablishSession => ActionV::EstablishSession,
            Action::SendResponse(r) => ActionV::SendResponse(r@),
            Action::CaptureRequest => ActionV::CaptureRequest,
        }
    }
}

impl View for Behaviour {
    type V = BehaviourV;

    open spec fn view(&self) -> BehaviourV {
        BehaviourV { expect: self.expect, actions: self.actions@.map_values(|a: Action| a@) }
    }
}

impl View for DeclarativeBehaviour {
    type V = DeclarativeV;

    open spec fn view(&self) -> DeclarativeV {
        DeclarativeV {
            whoareyou: self.whoareyou@.map_values(|a: Action| a@),
            handshake: self.handshake@.map_values(|a: Action| a@),
            message: self.message@.map_values(|a: Action| a@),
            message_without_session: self.message_without_session@.map_values(|a: Action| a@),
        }
    }
}

impl View for Behaviours {
    type V = BehavioursV;

    open spec fn view(&self) -> BehavioursV {
        match self {
            Behaviours::Declarative(d) => BehavioursV::Declarative(d@),
            Behaviours::Sequential(q) => BehavioursV::Sequential(
                q@.map_values(|b: Behaviour| b@),
            ),
        }
    }
}

} // verus!
