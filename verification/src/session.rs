//! The session relay's decision core: what to do with one decoded inbound
//! message, and what to reply once an execution finished.
//!
//! The relay's loop itself (reading frames, spawning, sending) performs
//! outside work; every decision is made here. A request either gets a direct
//! reply, or names a command to run together with how its outcome turns
//! into the reply.

use vstd::prelude::*;
use vstd::string::StringExecFns;

use crate::decimal::dec_of;
use crate::executor::join_lines;
use crate::executor::join_with_newlines;
use crate::decimal::is_decimal;
use crate::decimal::u64_to_dec_string;
use crate::message::MessageData;
use crate::message::MessageType;
use crate::message::MessageView;
use crate::message::default_view;
use crate::outside::epoch_seconds;
use crate::outside::shell_split;
use crate::outside::split_shell_words;

verus! {

/// The correlation tag as a plain value.
pub open spec fn opt_text(m: Option<String>) -> Option<Seq<char>> {
    match m {
        Some(s) => Some(s@),
        None => None,
    }
}

/// An already-resolved executable with its argument vector.
pub struct CommandSpec {
    pub program: String,
    pub args: Vec<String>,
}

/// What the relay does with one request.
pub enum Action {
    /// Send this message back, nothing else.
    Reply(MessageData),
    /// Run a command and answer from its outcome.
    Run {
        /// The command to spawn.
        cmd: CommandSpec,
        /// Whether the execution streams chunks (or collects everything).
        stream_output: bool,
        /// The kind the completion reply carries.
        reply_type: MessageType,
        /// The correlation tag echoed in the completion reply.
        meta: Option<String>,
        /// The streaming flag echoed in the completion reply.
        streaming: bool,
    },
}

/// The reply to a request whose execution finished with `res`: an Empty-kind
/// message where the execution streamed everything already, otherwise the
/// collected text under the request's own kind. Either way the request's
/// correlation tag is echoed back, so the client can match the reply.
pub fn map_option(
    res: Option<String>,
    msg_type: MessageType,
    meta: Option<String>,
    streaming: bool,
) -> (r: MessageData)
    ensures
        res is None ==> r@ == (MessageView {
            meta: opt_text(meta),
            msg_type: MessageType::Empty,
            ..default_view()
        }),
        res matches Some(s) ==> r@ == (MessageView {
            message: s@,
            msg_type,
            meta: opt_text(meta),
            streaming,
        }),
{
    match res {
        None => {
            let r = MessageData {
                message: String::new(),
                msg_type: MessageType::Empty,
                meta,
                streaming: true,
            };
            proof {
                assert(r@ =~= (MessageView {
                    meta: opt_text(r.meta),
                    msg_type: MessageType::Empty,
                    ..default_view()
                }));
            }
            r
        },
        Some(data) => {
            let r = MessageData { message: data, msg_type, meta, streaming };
            proof {
                assert(r@ =~= (MessageView {
                    message: r.message@,
                    msg_type,
                    meta: opt_text(r.meta),
                    streaming,
                }));
            }
            r
        },
    }
}

/// The reply to a request whose execution ended in `outcome`: a spawn
/// failure becomes an Error-kind reply carrying the failure text — never a
/// hang and never a panic — and a finished execution goes through
/// [`map_option`].
pub fn completion_reply(
    outcome: Result<Option<String>, String>,
    msg_type: MessageType,
    meta: Option<String>,
    streaming: bool,
) -> (r: MessageData)
    ensures
        outcome matches Err(e) ==> r@ == (MessageView {
            message: e@,
            msg_type: MessageType::Error,
            meta: opt_text(meta),
            streaming,
        }),
        outcome matches Ok(res) && res is None ==> r@ == (MessageView {
            meta: opt_text(meta),
            msg_type: MessageType::Empty,
            ..default_view()
        }),
        outcome matches Ok(res) ==> (res matches Some(s) ==> r@ == (MessageView {
            message: s@,
            msg_type,
            meta: opt_text(meta),
            streaming,
        })),
{
    match outcome {
        Ok(res) => map_option(res, msg_type, meta, streaming),
        Err(e) => {
            let r = MessageData { message: e, msg_type: MessageType::Error, meta, streaming };
            proof {
                assert(r@ =~= (MessageView {
                    message: r.message@,
                    msg_type: MessageType::Error,
                    meta: opt_text(r.meta),
                    streaming,
                }));
            }
            r
        },
    }
}

/// The immediate reply to a Time request: the clock reading as a decimal
/// numeral, under the request's tag, non-streaming — the answer is one
/// message and no chunks follow.
pub fn time_reply(meta: Option<String>, now: u64) -> (r: MessageData)
    ensures
        r@ == (MessageView {
            message: dec_of(now as nat),
            msg_type: MessageType::Time,
            meta: opt_text(meta),
            streaming: false,
        }),
{
    let r = MessageData {
        message: u64_to_dec_string(now),
        msg_type: MessageType::Time,
        meta,
        streaming: false,
    };
    proof {
        assert(r@ =~= (MessageView {
            message: dec_of(now as nat),
            msg_type: MessageType::Time,
            meta: opt_text(r.meta),
            streaming: false,
        }));
    }
    r
}

/// One streamed chunk as an outbound message: the flushed lines
/// newline-joined, under the request's correlation tag.
pub fn chunk_message(lines: &Vec<String>, meta: Option<String>) -> (r: MessageData)
    ensures
        r@ == (MessageView {
            message: join_lines(lines.deep_view()),
            meta: opt_text(meta),
            ..default_view()
        }),
{
    let r = MessageData {
        message: join_with_newlines(lines),
        msg_type: MessageType::Echo,
        meta,
        streaming: true,
    };
    proof {
        assert(r@ =~= (MessageView {
            message: join_lines(lines.deep_view()),
            meta: opt_text(r.meta),
            ..default_view()
        }));
    }
    r
}

/// The fixed, non-configurable directory-listing command.
pub fn ls_command() -> (r: CommandSpec)
    ensures
        r.program@ == "ls"@,
        r.args.deep_view() == seq!["-a"@],
{
    let mut args: Vec<String> = Vec::new();
    args.push(String::from_str("-a"));
    proof {
        assert(args.deep_view() =~= seq!["-a"@]);
    }
    CommandSpec { program: String::from_str("ls"), args }
}

/// The shell command for a ShellRun request: the wrapper script under the
/// shell, followed by the caller's text split into words under POSIX rules.
/// `None` exactly where the caller's quoting is malformed; the command is
/// then never spawned.
pub fn build_shell_command(script: &str, input: &str) -> (r: Option<CommandSpec>)
    ensures
        r is Some <==> shell_split(input@) is Some,
        r matches Some(c) ==> c.program@ == "bash"@ && c.args.deep_view() == seq![
            "-c"@,
            script@,
            "filename"@,
        ] + shell_split(input@).unwrap(),
{
    let mut user_args = match split_shell_words(input) {
        None => {
            return None;
        },
        Some(w) => w,
    };
    let ghost words = user_args.deep_view();
    let mut args: Vec<String> = Vec::new();
    args.push(String::from_str("-c"));
    args.push(String::from_str(script));
    args.push(String::from_str("filename"));
    proof {
        assert(args.deep_view() =~= seq!["-c"@, script@, "filename"@]);
    }
    args.append(&mut user_args);
    proof {
        assert(args.deep_view() =~= seq!["-c"@, script@, "filename"@] + words);
    }
    Some(CommandSpec { program: String::from_str("bash"), args })
}

/// Dispatches one decoded request. Time is answered at once from the clock;
/// ListFiles and ShellRun name the command to run; a ShellRun whose text has
/// malformed quoting is refused as an Error-kind reply; every other kind
/// passes through unchanged.
pub fn handle_request(req: MessageData, script: &str) -> (a: Action)
    ensures
        req.msg_type == MessageType::Time ==> (a matches Action::Reply(m) && m@.msg_type
            == MessageType::Time && m@.meta == req@.meta && !m@.streaming && is_decimal(
            m@.message,
        )),
        req.msg_type == MessageType::Ls ==> (a matches Action::Run {
            cmd,
            stream_output,
            reply_type,
            meta,
            streaming,
        } && cmd.program@ == "ls"@ && cmd.args.deep_view() == seq!["-a"@] && !stream_output
            && reply_type == MessageType::Ls && opt_text(meta) == req@.meta && streaming
            == req@.streaming),
        req.msg_type == MessageType::Sh && shell_split(req@.message) is Some ==> (a
            matches Action::Run { cmd, stream_output, reply_type, meta, streaming }
            && cmd.program@ == "bash"@ && cmd.args.deep_view() == seq!["-c"@, script@, "filename"@]
            + shell_split(req@.message).unwrap() && stream_output == req@.streaming && reply_type
            == MessageType::Sh && opt_text(meta) == req@.meta && streaming == req@.streaming),
        req.msg_type == MessageType::Sh && shell_split(req@.message) is None ==> (a
            matches Action::Reply(m) && m@ == (MessageView {
            message: "invalid quoting in command text"@,
            msg_type: MessageType::Error,
            meta: req@.meta,
            ..default_view()
        })),
        req.msg_type == MessageType::Error || req.msg_type == MessageType::Echo || req.msg_type
            == MessageType::Empty ==> (a matches Action::Reply(m) && m@ == req@),
{
    match req.msg_type {
        MessageType::Time => {
            let now = epoch_seconds();
            Action::Reply(time_reply(req.meta, now))
        },
        MessageType::Ls => Action::Run {
            cmd: ls_command(),
            stream_output: false,
            reply_type: MessageType::Ls,
            meta: req.meta,
            streaming: req.streaming,
        },
        MessageType::Sh => match build_shell_command(script, req.message.as_str()) {
            Some(cmd) => Action::Run {
                cmd,
                stream_output: req.streaming,
                reply_type: MessageType::Sh,
                meta: req.meta,
                streaming: req.streaming,
            },
            None => {
                let m = MessageData {
                    message: String::from_str("invalid quoting in command text"),
                    msg_type: MessageType::Error,
                    meta: req.meta,
                    streaming: true,
                };
                proof {
                    assert(m@ =~= (MessageView {
                        message: "invalid quoting in command text"@,
                        msg_type: MessageType::Error,
                        meta: opt_text(m.meta),
                        ..default_view()
                    }));
                }
                Action::Reply(m)
            },
        },
        MessageType::Error | MessageType::Echo | MessageType::Empty => Action::Reply(req),
    }
}

} // verus!
