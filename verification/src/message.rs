//! The protocol message model: the unit exchanged over the transport.

use vstd::prelude::*;

verus! {

/// The kind of a protocol message, a closed set of variants matched
/// exhaustively everywhere a message is dispatched.
#[derive(Debug, PartialEq, Eq, Structural, Clone, Copy)]
pub enum MessageType {
    Error,
    Echo,
    Time,
    Ls,
    Sh,
    Empty,
}

/// One protocol message. `meta` is an opaque client-supplied tag echoed back
/// unchanged so the client can match replies to requests; `streaming` says
/// whether the sender wants (or produces) incremental chunks rather than one
/// final message.
#[derive(Debug, PartialEq)]
pub struct MessageData {
    pub message: String,
    pub msg_type: MessageType,
    pub meta: Option<String>,
    pub streaming: bool,
}

/// The mathematical value of a [`MessageData`]: every field as a plain
/// spec-level value.
#[verifier::ext_equal]
pub struct MessageView {
    pub message: Seq<char>,
    pub msg_type: MessageType,
    pub meta: Option<Seq<char>>,
    pub streaming: bool,
}

impl View for MessageData {
    type V = MessageView;

    open spec fn view(&self) -> MessageView {
        MessageView {
            message: self.message@,
            msg_type: self.msg_type,
            meta: match self.meta {
                Some(ref m) => Some(m@),
                None => None,
            },
            streaming: self.streaming,
        }
    }
}

/// The field values a message takes when the sender leaves them out.
pub open spec fn default_view() -> MessageView {
    MessageView {
        message: Seq::<char>::empty(),
        msg_type: MessageType::Echo,
        meta: None,
        streaming: true,
    }
}

impl Default for MessageData {
    /// The message all of whose fields are defaults: empty text, kind Echo,
    /// no correlation tag, streaming wanted.
    fn default() -> (r: MessageData)
        ensures
            r@ == default_view(),
    {
        let r = MessageData {
            message: String::new(),
            msg_type: MessageType::Echo,
            meta: None,
            streaming: true,
        };
        proof {
            assert(r@ =~= default_view());
        }
        r
    }
}

impl MessageData {
    /// An Error-kind message carrying a description of a failure; the other
    /// fields are defaults.
    pub fn new_error(message: String) -> (r: MessageData)
        ensures
            r@ == (MessageView { message: message@, msg_type: MessageType::Error, ..default_view() }),
    {
        let r = MessageData {
            message,
            msg_type: MessageType::Error,
            meta: None,
            streaming: true,
        };
        proof {
            assert(r@ =~= (MessageView {
                message: r.message@,
                msg_type: MessageType::Error,
                ..default_view()
            }));
        }
        r
    }

    /// The Empty-kind reply: the operation produced no collectable text.
    pub fn empty() -> (r: MessageData)
        ensures
            r@ == (MessageView { msg_type: MessageType::Empty, ..default_view() }),
    {
        let r = MessageData {
            message: String::new(),
            msg_type: MessageType::Empty,
            meta: None,
            streaming: true,
        };
        proof {
            assert(r@ =~= (MessageView { msg_type: MessageType::Empty, ..default_view() }));
        }
        r
    }
}

} // verus!
