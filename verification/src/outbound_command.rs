//! Sending messages with a command.

use vstd::prelude::*;
use vstd::string::*;

use crate::container_runner::{
    command_failure, describe_failure, timeout_ok, CommandRunError, CommandRunRequest,
    CommandRunResult,
};
use crate::duration::Duration;
use crate::text::laws::replacing_puts_one_text_for_another;
use crate::text::{contains_text, occurs_at, outcome, replace, replaced};

verus! {

#[derive(Debug)]
pub struct CommandOutboundSender {
    pub program: String,
    pub args_template: Vec<String>,
    pub timeout: Duration,
}

/// A template with the chat, then the text filled in.
pub open spec fn rendered(template: Seq<char>, jid: Seq<char>, text: Seq<char>) -> Seq<char> {
    replaced(replaced(template, "{jid}"@, jid), "{text}"@, text)
}

impl CommandOutboundSender {
    /// The command that sends a text to a chat: its arguments are the templates
    /// filled in.
    pub fn build_request(&self, jid: &str, text: &str) -> (request: CommandRunRequest)
        ensures
            request.program@ == self.program@,
            request.args.deep_view() == Seq::new(
                self.args_template@.len(),
                |i: int| rendered(self.args_template@[i]@, jid@, text@),
            ),
            request.timeout == self.timeout,
    {
        let ghost wanted = Seq::new(
            self.args_template@.len(),
            |i: int| rendered(self.args_template@[i]@, jid@, text@),
        );
        proof {
            reveal_strlit("{jid}");
            reveal_strlit("{text}");
        }
        let mut args: Vec<String> = Vec::new();
        let mut i: usize = 0;
        while i < self.args_template.len()
            invariant
                i <= self.args_template@.len(),
                "{jid}"@.len() > 0,
                "{text}"@.len() > 0,
                wanted == Seq::new(
                    self.args_template@.len(),
                    |i: int| rendered(self.args_template@[i]@, jid@, text@),
                ),
                args.deep_view() =~= wanted.take(i as int),
            decreases self.args_template@.len() - i,
        {
            let ghost before = args.deep_view();
            let to = replace(self.args_template[i].as_str(), "{jid}", jid);
            args.push(replace(to.as_str(), "{text}", text));
            proof {
                assert(args.deep_view() =~= before.push(wanted[i as int]));
            }
            i += 1;
        }
        proof {
            assert(args.deep_view() =~= wanted);
        }
        CommandRunRequest { program: self.program.clone(), args, timeout: self.timeout }
    }

    /// Whether the text was sent.
    pub fn conclude(&self, result: Result<CommandRunResult, CommandRunError>) -> (sent: Result<
        (),
        String,
    >)
        requires
            result matches Err(e) ==> timeout_ok(e),
        ensures
            outcome(sent) == (match result {
                Ok(_) => Ok::<(), Seq<char>>(()),
                Err(error) => Err(command_failure("outbound command"@, error)),
            }),
    {
        match result {
            Ok(_) => Ok(()),
            Err(error) => Err(describe_failure("outbound command", &error)),
        }
    }
}

/// A command is given the chat and the text where its arguments ask for them.
pub proof fn placeholders_stand_for_chat_and_text(jid: Seq<char>, text: Seq<char>)
    requires
        !contains_text(jid, "{text}"@),
    ensures
        rendered("{jid}"@, jid, text) == jid,
        rendered("{text}"@, jid, text) == text,
{
    reveal_strlit("{jid}");
    reveal_strlit("{text}");
    replacing_puts_one_text_for_another(jid, "{text}"@, text);
    replacing_puts_one_text_for_another("{text}"@, "{jid}"@, jid);
    replacing_puts_one_text_for_another(jid, "{jid}"@, jid);
    assert(!contains_text("{text}"@, "{jid}"@)) by {
        if contains_text("{text}"@, "{jid}"@) {
            let i = choose|i: int| occurs_at("{text}"@, "{jid}"@, i);
            assert("{text}"@.subrange(i, i + 5)[1] == 'j');
            assert("{text}"@[i + 1] == 'j');
        }
    }
}

} // verus!
