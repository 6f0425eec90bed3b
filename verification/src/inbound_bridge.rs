//! Messages that a command reports, one to a line.

use vstd::prelude::*;
use vstd::string::*;

use crate::container_runner::{code_shown, show_code};
use crate::text::laws::trimming_takes_only_white_space;
use crate::text::{is_space, outcome, tail, tail_chars, trim, trimmed};
use crate::types::NewMessage;

verus! {

#[derive(Debug, PartialEq, Eq)]
pub enum InboundBridgeEvent {
    Message { message: NewMessage },
    ChatMetadata { chat_jid: String, timestamp: String, name: Option<String> },
}

#[derive(Debug)]
pub struct CommandInboundBridge {
    pub program: String,
    pub args: Vec<String>,
}

/// What a line says; nothing where it is blank.
pub open spec fn line_content(line: Seq<char>) -> Option<Seq<char>> {
    if trimmed(line).len() == 0 {
        None
    } else {
        Some(trimmed(line))
    }
}

impl CommandInboundBridge {
    /// What a line says; nothing where it is blank.
    pub fn event_text(&self, line: &str) -> (text: Option<String>)
        ensures
            text.deep_view() == line_content(line@),
    {
        let text = trim(line);
        if text.as_str().is_empty() {
            None
        } else {
            Some(text)
        }
    }

    /// The event of a line, or why it is none.
    pub fn line_event(&self, text: &str, decoded: Result<InboundBridgeEvent, String>) -> (event:
        Result<InboundBridgeEvent, String>)
        ensures
            match decoded {
                Ok(e) => event == Ok::<InboundBridgeEvent, String>(e),
                Err(reason) => event matches Err(message) && message@
                    == "invalid inbound bridge JSON line: "@ + reason@ + "; line="@ + text@,
            },
    {
        match decoded {
            Ok(event) => Ok(event),
            Err(reason) => Err(
                "invalid inbound bridge JSON line: ".to_owned().concat(reason.as_str()).concat(
                    "; line=",
                ).concat(text),
            ),
        }
    }

    /// What the end of the command amounts to: a failure counts unless the
    /// command was stopped.
    pub fn conclude(
        &self,
        shutdown_requested: bool,
        succeeded: bool,
        exit_code: Option<i32>,
        stderr: &str,
    ) -> (out: Result<(), String>)
        ensures
            outcome(out) == if shutdown_requested || succeeded {
                Ok::<(), Seq<char>>(())
            } else {
                Err(
                    "inbound bridge exited with code "@ + code_shown(exit_code) + ": "@ + tail(
                        stderr@,
                        300,
                    ),
                )
            },
    {
        if shutdown_requested || succeeded {
            return Ok(());
        }
        Err(
            "inbound bridge exited with code ".to_owned().concat(
                show_code(exit_code).as_str(),
            ).concat(": ").concat(tail_chars(stderr, 300).as_str()),
        )
    }
}

/// A line says what stands on it, without white space around it; a blank line says
/// nothing.
pub proof fn line_says_what_stands_on_it(line: Seq<char>)
    ensures
        line_content(line) is None <==> trimmed(line).len() == 0,
        (line_content(line) matches Some(text) ==> {
            &&& text.len() > 0
            &&& !is_space(text[0])
            &&& !is_space(text.last())
            &&& line_content(text) == Some(text)
        }),
{
    trimming_takes_only_white_space(line);
}

} // verus!
