//! Running the agent as a command.

use vstd::prelude::*;
use vstd::string::*;

use crate::container_runner::{
    command_failure, describe_failure, timeout_ok, CommandRunError, CommandRunRequest,
    CommandRunResult, ContainerOutputStatus,
};
use crate::duration::Duration;
use crate::orchestrator::agent::{
    conclude_run, last_of, run_conclusion, AgentRunInput, AgentRunOutput, RunOutputView,
};
use crate::text::laws::{
    placeholders_do_not_overlap, plain_text_holds_no_placeholder,
    replacing_puts_one_text_for_another,
};
use crate::text::{contains_text, outcome, replace, replaced};

verus! {

#[derive(Debug)]
pub struct MarkerCommandAgentRunner {
    pub program: String,
    pub args_template: Vec<String>,
    pub timeout: Duration,
}

/// A template with the placeholders of an input filled in, one after another.
pub open spec fn rendered(template: Seq<char>, input: AgentRunInput) -> Seq<char> {
    let t = replaced(template, "{group_name}"@, input.group.name@);
    let t = replaced(t, "{group_folder}"@, input.group_folder@);
    let t = replaced(t, "{chat_jid}"@, input.chat_jid@);
    let t = replaced(t, "{prompt}"@, input.prompt@);
    let t = replaced(
        t,
        "{session_id}"@,
        match input.session_id {
            Some(id) => id@,
            None => ""@,
        },
    );
    replaced(
        t,
        "{is_main}"@,
        if input.is_main {
            "true"@
        } else {
            "false"@
        },
    )
}

/// A template with the placeholders of an input filled in.
pub fn render_template(template: &str, input: &AgentRunInput) -> (text: String)
    ensures
        text@ == rendered(template@, *input),
{
    proof {
        reveal_strlit("{group_name}");
        reveal_strlit("{group_folder}");
        reveal_strlit("{chat_jid}");
        reveal_strlit("{prompt}");
        reveal_strlit("{session_id}");
        reveal_strlit("{is_main}");
    }
    let t = replace(template, "{group_name}", input.group.name.as_str());
    let t = replace(t.as_str(), "{group_folder}", input.group_folder.as_str());
    let t = replace(t.as_str(), "{chat_jid}", input.chat_jid.as_str());
    let t = replace(t.as_str(), "{prompt}", input.prompt.as_str());
    let session = match &input.session_id {
        Some(id) => id.as_str(),
        None => "",
    };
    let t = replace(t.as_str(), "{session_id}", session);
    let is_main = if input.is_main {
        "true"
    } else {
        "false"
    };
    replace(t.as_str(), "{is_main}", is_main)
}

/// What a run of the command amounts to.
pub open spec fn command_conclusion(
    result: Result<CommandRunResult, CommandRunError>,
    session_id: Option<Seq<char>>,
) -> Result<RunOutputView, Seq<char>> {
    match result {
        Ok(output) => run_conclusion(
            last_of(output.outputs@),
            output.parse_errors.deep_view(),
            output.stdout@,
            session_id,
            "agent runner returned error marker"@,
        ),
        Err(error) => Err(command_failure("agent command"@, error)),
    }
}

impl MarkerCommandAgentRunner {
    /// The command for an input: its arguments are the templates filled in.
    pub fn build_request(&self, input: &AgentRunInput) -> (request: CommandRunRequest)
        ensures
            request.program@ == self.program@,
            request.args.deep_view() == Seq::new(
                self.args_template@.len(),
                |i: int| rendered(self.args_template@[i]@, *input),
            ),
            request.timeout == self.timeout,
    {
        let ghost wanted = Seq::new(
            self.args_template@.len(),
            |i: int| rendered(self.args_template@[i]@, *input),
        );
        let mut args: Vec<String> = Vec::new();
        let mut i: usize = 0;
        while i < self.args_template.len()
            invariant
                i <= self.args_template@.len(),
                wanted == Seq::new(
                    self.args_template@.len(),
                    |i: int| rendered(self.args_template@[i]@, *input),
                ),
                args.deep_view() =~= wanted.take(i as int),
            decreases self.args_template@.len() - i,
        {
            let ghost before = args.deep_view();
            args.push(render_template(self.args_template[i].as_str(), input));
            proof {
                assert(args.deep_view() =~= before.push(wanted[i as int]));
            }
            i += 1;
        }
        proof {
            assert(args.deep_view() =~= wanted);
        }
        CommandRunRequest { program: self.program.clone(), args, timeout: self.timeout }
    }

    /// What a run of the command amounts to.
    pub fn conclude(
        &self,
        result: Result<CommandRunResult, CommandRunError>,
        session_id: &Option<String>,
    ) -> (out: Result<AgentRunOutput, String>)
        requires
            result matches Err(e) ==> timeout_ok(e),
        ensures
            outcome(out) == command_conclusion(result, session_id.deep_view()),
    {
        match result {
            Ok(output) => conclude_run(
                &output.outputs,
                &output.parse_errors,
                output.stdout.as_str(),
                session_id,
                "agent runner returned error marker",
            ),
            Err(error) => Err(describe_failure("agent command", &error)),
        }
    }
}

#[verifier::spinoff_prover]
proof fn lemma_placeholders()
    ensures
        "{group_name}"@.len() == 12,
        "{group_name}"@[0] == '{',
        "{group_folder}"@.len() == 14,
        "{group_folder}"@[0] == '{',
        "{chat_jid}"@.len() == 10,
        "{chat_jid}"@[0] == '{',
        "{prompt}"@.len() == 8,
        "{prompt}"@[0] == '{',
        "{session_id}"@.len() == 12,
        "{session_id}"@[0] == '{',
        "{is_main}"@.len() == 9,
        "{is_main}"@[0] == '{',
        !contains_text("{group_name}"@, "{group_folder}"@),
        !contains_text("{group_name}"@, "{chat_jid}"@),
        !contains_text("{group_name}"@, "{prompt}"@),
        !contains_text("{group_name}"@, "{session_id}"@),
        !contains_text("{group_name}"@, "{is_main}"@),
        !contains_text("{group_folder}"@, "{group_name}"@),
        !contains_text("{group_folder}"@, "{chat_jid}"@),
        !contains_text("{group_folder}"@, "{prompt}"@),
        !contains_text("{group_folder}"@, "{session_id}"@),
        !contains_text("{group_folder}"@, "{is_main}"@),
        !contains_text("{chat_jid}"@, "{group_name}"@),
        !contains_text("{chat_jid}"@, "{group_folder}"@),
        !contains_text("{chat_jid}"@, "{prompt}"@),
        !contains_text("{chat_jid}"@, "{session_id}"@),
        !contains_text("{chat_jid}"@, "{is_main}"@),
        !contains_text("{prompt}"@, "{group_name}"@),
        !contains_text("{prompt}"@, "{group_folder}"@),
        !contains_text("{prompt}"@, "{chat_jid}"@),
        !contains_text("{prompt}"@, "{session_id}"@),
        !contains_text("{prompt}"@, "{is_main}"@),
        !contains_text("{session_id}"@, "{group_name}"@),
        !contains_text("{session_id}"@, "{group_folder}"@),
        !contains_text("{session_id}"@, "{chat_jid}"@),
        !contains_text("{session_id}"@, "{prompt}"@),
        !contains_text("{session_id}"@, "{is_main}"@),
        !contains_text("{is_main}"@, "{group_name}"@),
        !contains_text("{is_main}"@, "{group_folder}"@),
        !contains_text("{is_main}"@, "{chat_jid}"@),
        !contains_text("{is_main}"@, "{prompt}"@),
        !contains_text("{is_main}"@, "{session_id}"@),
{
    reveal_strlit("{group_name}");
    reveal_strlit("{group_folder}");
    reveal_strlit("{chat_jid}");
    reveal_strlit("{prompt}");
    reveal_strlit("{session_id}");
    reveal_strlit("{is_main}");
    placeholders_do_not_overlap("{group_name}"@, "{group_folder}"@, 7);
    placeholders_do_not_overlap("{group_name}"@, "{chat_jid}"@, 1);
    placeholders_do_not_overlap("{group_name}"@, "{prompt}"@, 1);
    placeholders_do_not_overlap("{group_name}"@, "{session_id}"@, 1);
    placeholders_do_not_overlap("{group_name}"@, "{is_main}"@, 1);
    placeholders_do_not_overlap("{group_folder}"@, "{group_name}"@, 7);
    placeholders_do_not_overlap("{group_folder}"@, "{chat_jid}"@, 1);
    placeholders_do_not_overlap("{group_folder}"@, "{prompt}"@, 1);
    placeholders_do_not_overlap("{group_folder}"@, "{session_id}"@, 1);
    placeholders_do_not_overlap("{group_folder}"@, "{is_main}"@, 1);
    placeholders_do_not_overlap("{chat_jid}"@, "{group_name}"@, 1);
    placeholders_do_not_overlap("{chat_jid}"@, "{group_folder}"@, 1);
    placeholders_do_not_overlap("{chat_jid}"@, "{prompt}"@, 1);
    placeholders_do_not_overlap("{chat_jid}"@, "{session_id}"@, 1);
    placeholders_do_not_overlap("{chat_jid}"@, "{is_main}"@, 1);
    placeholders_do_not_overlap("{prompt}"@, "{group_name}"@, 1);
    placeholders_do_not_overlap("{prompt}"@, "{group_folder}"@, 1);
    placeholders_do_not_overlap("{prompt}"@, "{chat_jid}"@, 1);
    placeholders_do_not_overlap("{prompt}"@, "{session_id}"@, 1);
    placeholders_do_not_overlap("{prompt}"@, "{is_main}"@, 1);
    placeholders_do_not_overlap("{session_id}"@, "{group_name}"@, 1);
    placeholders_do_not_overlap("{session_id}"@, "{group_folder}"@, 1);
    placeholders_do_not_overlap("{session_id}"@, "{chat_jid}"@, 1);
    placeholders_do_not_overlap("{session_id}"@, "{prompt}"@, 1);
    placeholders_do_not_overlap("{session_id}"@, "{is_main}"@, 1);
    placeholders_do_not_overlap("{is_main}"@, "{group_name}"@, 1);
    placeholders_do_not_overlap("{is_main}"@, "{group_folder}"@, 1);
    placeholders_do_not_overlap("{is_main}"@, "{chat_jid}"@, 1);
    placeholders_do_not_overlap("{is_main}"@, "{prompt}"@, 1);
    placeholders_do_not_overlap("{is_main}"@, "{session_id}"@, 1);
}

/// A command is given what its arguments ask for: each placeholder stands for the thing
/// that it names.
pub proof fn placeholders_stand_for_the_input(input: AgentRunInput)
    requires
        !input.group.name@.contains('{'),
        !input.group_folder@.contains('{'),
        !input.chat_jid@.contains('{'),
        !input.prompt@.contains('{'),
        input.session_id matches Some(id) ==> !id@.contains('{'),
    ensures
        rendered("{group_name}"@, input) == input.group.name@,
        rendered("{group_folder}"@, input) == input.group_folder@,
        rendered("{chat_jid}"@, input) == input.chat_jid@,
        rendered("{prompt}"@, input) == input.prompt@,
        input.session_id matches Some(id) ==> rendered("{session_id}"@, input) == id@,
        rendered("{is_main}"@, input) == if input.is_main {
            "true"@
        } else {
            "false"@
        },
{
    let session = match input.session_id {
        Some(id) => id@,
        None => ""@,
    };
    let main = if input.is_main {
        "true"@
    } else {
        "false"@
    };
    lemma_placeholders();
    reveal_strlit("");
    assert(!session.contains('{'));
    replacing_puts_one_text_for_another(Seq::empty(), "{group_name}"@, input.group.name@);
    plain_text_holds_no_placeholder(input.group.name@, "{group_folder}"@);
    replacing_puts_one_text_for_another(input.group.name@, "{group_folder}"@, input.group_folder@);
    plain_text_holds_no_placeholder(input.group.name@, "{chat_jid}"@);
    replacing_puts_one_text_for_another(input.group.name@, "{chat_jid}"@, input.chat_jid@);
    plain_text_holds_no_placeholder(input.group.name@, "{prompt}"@);
    replacing_puts_one_text_for_another(input.group.name@, "{prompt}"@, input.prompt@);
    plain_text_holds_no_placeholder(input.group.name@, "{session_id}"@);
    replacing_puts_one_text_for_another(input.group.name@, "{session_id}"@, session);
    plain_text_holds_no_placeholder(input.group.name@, "{is_main}"@);
    replacing_puts_one_text_for_another(input.group.name@, "{is_main}"@, main);
    replacing_puts_one_text_for_another("{group_folder}"@, "{group_name}"@, input.group.name@);
    replacing_puts_one_text_for_another(Seq::empty(), "{group_folder}"@, input.group_folder@);
    plain_text_holds_no_placeholder(input.group_folder@, "{chat_jid}"@);
    replacing_puts_one_text_for_another(input.group_folder@, "{chat_jid}"@, input.chat_jid@);
    plain_text_holds_no_placeholder(input.group_folder@, "{prompt}"@);
    replacing_puts_one_text_for_another(input.group_folder@, "{prompt}"@, input.prompt@);
    plain_text_holds_no_placeholder(input.group_folder@, "{session_id}"@);
    replacing_puts_one_text_for_another(input.group_folder@, "{session_id}"@, session);
    plain_text_holds_no_placeholder(input.group_folder@, "{is_main}"@);
    replacing_puts_one_text_for_another(input.group_folder@, "{is_main}"@, main);
    replacing_puts_one_text_for_another("{chat_jid}"@, "{group_name}"@, input.group.name@);
    replacing_puts_one_text_for_another("{chat_jid}"@, "{group_folder}"@, input.group_folder@);
    replacing_puts_one_text_for_another(Seq::empty(), "{chat_jid}"@, input.chat_jid@);
    plain_text_holds_no_placeholder(input.chat_jid@, "{prompt}"@);
    replacing_puts_one_text_for_another(input.chat_jid@, "{prompt}"@, input.prompt@);
    plain_text_holds_no_placeholder(input.chat_jid@, "{session_id}"@);
    replacing_puts_one_text_for_another(input.chat_jid@, "{session_id}"@, session);
    plain_text_holds_no_placeholder(input.chat_jid@, "{is_main}"@);
    replacing_puts_one_text_for_another(input.chat_jid@, "{is_main}"@, main);
    replacing_puts_one_text_for_another("{prompt}"@, "{group_name}"@, input.group.name@);
    replacing_puts_one_text_for_another("{prompt}"@, "{group_folder}"@, input.group_folder@);
    replacing_puts_one_text_for_another("{prompt}"@, "{chat_jid}"@, input.chat_jid@);
    replacing_puts_one_text_for_another(Seq::empty(), "{prompt}"@, input.prompt@);
    plain_text_holds_no_placeholder(input.prompt@, "{session_id}"@);
    replacing_puts_one_text_for_another(input.prompt@, "{session_id}"@, session);
    plain_text_holds_no_placeholder(input.prompt@, "{is_main}"@);
    replacing_puts_one_text_for_another(input.prompt@, "{is_main}"@, main);
    replacing_puts_one_text_for_another("{session_id}"@, "{group_name}"@, input.group.name@);
    replacing_puts_one_text_for_another("{session_id}"@, "{group_folder}"@, input.group_folder@);
    replacing_puts_one_text_for_another("{session_id}"@, "{chat_jid}"@, input.chat_jid@);
    replacing_puts_one_text_for_another("{session_id}"@, "{prompt}"@, input.prompt@);
    replacing_puts_one_text_for_another(Seq::empty(), "{session_id}"@, session);
    plain_text_holds_no_placeholder(session, "{is_main}"@);
    replacing_puts_one_text_for_another(session, "{is_main}"@, main);
    replacing_puts_one_text_for_another("{is_main}"@, "{group_name}"@, input.group.name@);
    replacing_puts_one_text_for_another("{is_main}"@, "{group_folder}"@, input.group_folder@);
    replacing_puts_one_text_for_another("{is_main}"@, "{chat_jid}"@, input.chat_jid@);
    replacing_puts_one_text_for_another("{is_main}"@, "{prompt}"@, input.prompt@);
    replacing_puts_one_text_for_another("{is_main}"@, "{session_id}"@, session);
    replacing_puts_one_text_for_another(Seq::empty(), "{is_main}"@, main);
}

/// A run that ends well goes on in the session that it names, or else in the one that it
/// was given; a command that fails is an error.
pub proof fn command_run_goes_on_in_its_session(
    result: Result<CommandRunResult, CommandRunError>,
    session_id: Option<Seq<char>>,
)
    ensures
        result is Err ==> command_conclusion(result, session_id) is Err,
        (result matches Ok(output) ==> {
            let end = command_conclusion(result, session_id);
            let last = output.outputs@[output.outputs@.len() - 1];
            let worked = last.status == ContainerOutputStatus::Success;
            &&& output.outputs@.len() > 0 ==> (end is Ok <==> worked)
            &&& output.outputs@.len() > 0 && worked ==> end->Ok_0.result
                == last.result.deep_view() && end->Ok_0.new_session_id == (
            if last.new_session_id is Some {
                last.new_session_id.deep_view()
            } else {
                session_id
            })
            &&& output.outputs@.len() == 0 && output.parse_errors@.len() == 0 ==> end is Ok
                && end->Ok_0.new_session_id == session_id
        }),
{
    if let Ok(output) = result {
        assert(output.parse_errors.deep_view().len() == output.parse_errors@.len());
    }
}

} // verus!
