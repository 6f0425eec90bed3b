//! Running a scheduled task as a command.

use vstd::prelude::*;
use vstd::string::*;

use crate::container_runner::{
    command_failure, describe_failure, timeout_ok, CommandRunError, CommandRunRequest,
    CommandRunResult, ContainerOutput, ContainerOutputStatus,
};
use crate::duration::Duration;
use crate::orchestrator::agent::last_of;
use crate::task_scheduler::{TaskExecution, TaskExecutionView};
use crate::text::laws::{
    joined_text_holds_its_parts, placeholders_do_not_overlap, plain_text_holds_no_placeholder,
    replacing_puts_one_text_for_another,
};
use crate::text::{contains_text, join, joined, replace, replaced, trim, trimmed};
use crate::types::ScheduledTask;

verus! {

#[derive(Debug)]
pub struct MarkerCommandExecutor {
    pub program: String,
    pub args_template: Vec<String>,
    pub timeout: Duration,
}

/// A template with the placeholders of a task filled in, one after another.
pub open spec fn rendered(template: Seq<char>, task: ScheduledTask) -> Seq<char> {
    let t = replaced(template, "{task_id}"@, task.id@);
    let t = replaced(t, "{group_folder}"@, task.group_folder@);
    let t = replaced(t, "{chat_jid}"@, task.chat_jid@);
    let t = replaced(t, "{prompt}"@, task.prompt@);
    replaced(t, "{schedule_value}"@, task.schedule_value@)
}

/// A template with the placeholders of a task filled in.
pub fn render_template(template: &str, task: &ScheduledTask) -> (text: String)
    ensures
        text@ == rendered(template@, *task),
{
    proof {
        reveal_strlit("{task_id}");
        reveal_strlit("{group_folder}");
        reveal_strlit("{chat_jid}");
        reveal_strlit("{prompt}");
        reveal_strlit("{schedule_value}");
    }
    let t = replace(template, "{task_id}", task.id.as_str());
    let t = replace(t.as_str(), "{group_folder}", task.group_folder.as_str());
    let t = replace(t.as_str(), "{chat_jid}", task.chat_jid.as_str());
    let t = replace(t.as_str(), "{prompt}", task.prompt.as_str());
    replace(t.as_str(), "{schedule_value}", task.schedule_value.as_str())
}

/// How a task ended whose command ran: as its last marked result says, else with
/// the messages on what could not be read, else with its plain output.
pub open spec fn command_execution(
    last: Option<ContainerOutput>,
    parse_errors: Seq<Seq<char>>,
    stdout: Seq<char>,
) -> TaskExecutionView {
    match last {
        Some(output) => match output.status {
            ContainerOutputStatus::Success => TaskExecutionView {
                result: Some(
                    match output.result.deep_view() {
                        Some(text) => text,
                        None => "Completed"@,
                    },
                ),
                error: None,
            },
            ContainerOutputStatus::Error => TaskExecutionView {
                result: None,
                error: Some(
                    match output.error.deep_view() {
                        Some(text) => text,
                        None => "executor returned error status"@,
                    },
                ),
            },
        },
        None => if parse_errors.len() > 0 {
            TaskExecutionView { result: None, error: Some(joined(parse_errors, "; "@)) }
        } else {
            TaskExecutionView {
                result: Some(
                    if trimmed(stdout).len() == 0 {
                        "Completed"@
                    } else {
                        trimmed(stdout)
                    },
                ),
                error: None,
            }
        },
    }
}

/// How a task ended.
pub open spec fn task_end(result: Result<CommandRunResult, CommandRunError>) -> TaskExecutionView {
    match result {
        Ok(output) => command_execution(
            last_of(output.outputs@),
            output.parse_errors.deep_view(),
            output.stdout@,
        ),
        Err(error) => TaskExecutionView {
            result: None,
            error: Some(command_failure("command"@, error)),
        },
    }
}

impl MarkerCommandExecutor {
    /// The command for a task: its arguments are the templates filled in.
    pub fn build_request(&self, task: &ScheduledTask) -> (request: CommandRunRequest)
        ensures
            request.program@ == self.program@,
            request.args.deep_view() == Seq::new(
                self.args_template@.len(),
                |i: int| rendered(self.args_template@[i]@, *task),
            ),
            request.timeout == self.timeout,
    {
        let ghost wanted = Seq::new(
            self.args_template@.len(),
            |i: int| rendered(self.args_template@[i]@, *task),
        );
        let mut args: Vec<String> = Vec::new();
        let mut i: usize = 0;
        while i < self.args_template.len()
            invariant
                i <= self.args_template@.len(),
                wanted == Seq::new(
                    self.args_template@.len(),
                    |i: int| rendered(self.args_template@[i]@, *task),
                ),
                args.deep_view() =~= wanted.take(i as int),
            decreases self.args_template@.len() - i,
        {
            let ghost before = args.deep_view();
            args.push(render_template(self.args_template[i].as_str(), task));
            proof {
                assert(args.deep_view() =~= before.push(wanted[i as int]));
            }
            i += 1;
        }
        proof {
            assert(args.deep_view() =~= wanted);
        }
        CommandRunRequest { program: self.program.clone(), args, timeout: self.timeout }
    }

    /// How a task ended.
    pub fn conclude(&self, result: Result<CommandRunResult, CommandRunError>) -> (execution:
        TaskExecution)
        requires
            result matches Err(e) ==> timeout_ok(e),
        ensures
            execution@ == task_end(result),
    {
        let output = match result {
            Err(error) => {
                return TaskExecution {
                    result: None,
                    error: Some(describe_failure("command", &error)),
                };
            },
            Ok(output) => output,
        };
        if output.outputs.len() > 0 {
            let last = &output.outputs[output.outputs.len() - 1];
            return match last.status {
                ContainerOutputStatus::Success => TaskExecution {
                    result: match &last.result {
                        Some(text) => Some(text.clone()),
                        None => Some("Completed".to_owned()),
                    },
                    error: None,
                },
                ContainerOutputStatus::Error => TaskExecution {
                    result: None,
                    error: match &last.error {
                        Some(text) => Some(text.clone()),
                        None => Some("executor returned error status".to_owned()),
                    },
                },
            };
        }
        proof {
            assert(output.parse_errors.deep_view().len() == output.parse_errors@.len());
        }
        if output.parse_errors.len() > 0 {
            return TaskExecution {
                result: None,
                error: Some(join(&output.parse_errors, "; ")),
            };
        }
        let text = trim(output.stdout.as_str());
        let result = if text.as_str().is_empty() {
            "Completed".to_owned()
        } else {
            text
        };
        TaskExecution { result: Some(result), error: None }
    }
}

#[verifier::spinoff_prover]
proof fn lemma_placeholders()
    ensures
        "{task_id}"@.len() == 9,
        "{task_id}"@[0] == '{',
        "{group_folder}"@.len() == 14,
        "{group_folder}"@[0] == '{',
        "{chat_jid}"@.len() == 10,
        "{chat_jid}"@[0] == '{',
        "{prompt}"@.len() == 8,
        "{prompt}"@[0] == '{',
        "{schedule_value}"@.len() == 16,
        "{schedule_value}"@[0] == '{',
        !contains_text("{task_id}"@, "{group_folder}"@),
        !contains_text("{task_id}"@, "{chat_jid}"@),
        !contains_text("{task_id}"@, "{prompt}"@),
        !contains_text("{task_id}"@, "{schedule_value}"@),
        !contains_text("{group_folder}"@, "{task_id}"@),
        !contains_text("{group_folder}"@, "{chat_jid}"@),
        !contains_text("{group_folder}"@, "{prompt}"@),
        !contains_text("{group_folder}"@, "{schedule_value}"@),
        !contains_text("{chat_jid}"@, "{task_id}"@),
        !contains_text("{chat_jid}"@, "{group_folder}"@),
        !contains_text("{chat_jid}"@, "{prompt}"@),
        !contains_text("{chat_jid}"@, "{schedule_value}"@),
        !contains_text("{prompt}"@, "{task_id}"@),
        !contains_text("{prompt}"@, "{group_folder}"@),
        !contains_text("{prompt}"@, "{chat_jid}"@),
        !contains_text("{prompt}"@, "{schedule_value}"@),
        !contains_text("{schedule_value}"@, "{task_id}"@),
        !contains_text("{schedule_value}"@, "{group_folder}"@),
        !contains_text("{schedule_value}"@, "{chat_jid}"@),
        !contains_text("{schedule_value}"@, "{prompt}"@),
{
    reveal_strlit("{task_id}");
    reveal_strlit("{group_folder}");
    reveal_strlit("{chat_jid}");
    reveal_strlit("{prompt}");
    reveal_strlit("{schedule_value}");
    placeholders_do_not_overlap("{task_id}"@, "{group_folder}"@, 1);
    placeholders_do_not_overlap("{task_id}"@, "{chat_jid}"@, 1);
    placeholders_do_not_overlap("{task_id}"@, "{prompt}"@, 1);
    placeholders_do_not_overlap("{task_id}"@, "{schedule_value}"@, 1);
    placeholders_do_not_overlap("{group_folder}"@, "{task_id}"@, 1);
    placeholders_do_not_overlap("{group_folder}"@, "{chat_jid}"@, 1);
    placeholders_do_not_overlap("{group_folder}"@, "{prompt}"@, 1);
    placeholders_do_not_overlap("{group_folder}"@, "{schedule_value}"@, 1);
    placeholders_do_not_overlap("{chat_jid}"@, "{task_id}"@, 1);
    placeholders_do_not_overlap("{chat_jid}"@, "{group_folder}"@, 1);
    placeholders_do_not_overlap("{chat_jid}"@, "{prompt}"@, 1);
    placeholders_do_not_overlap("{chat_jid}"@, "{schedule_value}"@, 1);
    placeholders_do_not_overlap("{prompt}"@, "{task_id}"@, 1);
    placeholders_do_not_overlap("{prompt}"@, "{group_folder}"@, 1);
    placeholders_do_not_overlap("{prompt}"@, "{chat_jid}"@, 1);
    placeholders_do_not_overlap("{prompt}"@, "{schedule_value}"@, 1);
    placeholders_do_not_overlap("{schedule_value}"@, "{task_id}"@, 1);
    placeholders_do_not_overlap("{schedule_value}"@, "{group_folder}"@, 1);
    placeholders_do_not_overlap("{schedule_value}"@, "{chat_jid}"@, 1);
    placeholders_do_not_overlap("{schedule_value}"@, "{prompt}"@, 1);
}

/// A command is given what its arguments ask for: each placeholder stands for the part of
/// the task that it names.
pub proof fn placeholders_stand_for_the_task(task: ScheduledTask)
    requires
        !task.id@.contains('{'),
        !task.group_folder@.contains('{'),
        !task.chat_jid@.contains('{'),
        !task.prompt@.contains('{'),
        !task.schedule_value@.contains('{'),
    ensures
        rendered("{task_id}"@, task) == task.id@,
        rendered("{group_folder}"@, task) == task.group_folder@,
        rendered("{chat_jid}"@, task) == task.chat_jid@,
        rendered("{prompt}"@, task) == task.prompt@,
        rendered("{schedule_value}"@, task) == task.schedule_value@,
{
    lemma_placeholders();
    replacing_puts_one_text_for_another(Seq::empty(), "{task_id}"@, task.id@);
    plain_text_holds_no_placeholder(task.id@, "{group_folder}"@);
    replacing_puts_one_text_for_another(task.id@, "{group_folder}"@, task.group_folder@);
    plain_text_holds_no_placeholder(task.id@, "{chat_jid}"@);
    replacing_puts_one_text_for_another(task.id@, "{chat_jid}"@, task.chat_jid@);
    plain_text_holds_no_placeholder(task.id@, "{prompt}"@);
    replacing_puts_one_text_for_another(task.id@, "{prompt}"@, task.prompt@);
    plain_text_holds_no_placeholder(task.id@, "{schedule_value}"@);
    replacing_puts_one_text_for_another(task.id@, "{schedule_value}"@, task.schedule_value@);
    replacing_puts_one_text_for_another("{group_folder}"@, "{task_id}"@, task.id@);
    replacing_puts_one_text_for_another(Seq::empty(), "{group_folder}"@, task.group_folder@);
    plain_text_holds_no_placeholder(task.group_folder@, "{chat_jid}"@);
    replacing_puts_one_text_for_another(task.group_folder@, "{chat_jid}"@, task.chat_jid@);
    plain_text_holds_no_placeholder(task.group_folder@, "{prompt}"@);
    replacing_puts_one_text_for_another(task.group_folder@, "{prompt}"@, task.prompt@);
    plain_text_holds_no_placeholder(task.group_folder@, "{schedule_value}"@);
    replacing_puts_one_text_for_another(task.group_folder@, "{schedule_value}"@, task.schedule_value@);
    replacing_puts_one_text_for_another("{chat_jid}"@, "{task_id}"@, task.id@);
    replacing_puts_one_text_for_another("{chat_jid}"@, "{group_folder}"@, task.group_folder@);
    replacing_puts_one_text_for_another(Seq::empty(), "{chat_jid}"@, task.chat_jid@);
    plain_text_holds_no_placeholder(task.chat_jid@, "{prompt}"@);
    replacing_puts_one_text_for_another(task.chat_jid@, "{prompt}"@, task.prompt@);
    plain_text_holds_no_placeholder(task.chat_jid@, "{schedule_value}"@);
    replacing_puts_one_text_for_another(task.chat_jid@, "{schedule_value}"@, task.schedule_value@);
    replacing_puts_one_text_for_another("{prompt}"@, "{task_id}"@, task.id@);
    replacing_puts_one_text_for_another("{prompt}"@, "{group_folder}"@, task.group_folder@);
    replacing_puts_one_text_for_another("{prompt}"@, "{chat_jid}"@, task.chat_jid@);
    replacing_puts_one_text_for_another(Seq::empty(), "{prompt}"@, task.prompt@);
    plain_text_holds_no_placeholder(task.prompt@, "{schedule_value}"@);
    replacing_puts_one_text_for_another(task.prompt@, "{schedule_value}"@, task.schedule_value@);
    replacing_puts_one_text_for_another("{schedule_value}"@, "{task_id}"@, task.id@);
    replacing_puts_one_text_for_another("{schedule_value}"@, "{group_folder}"@, task.group_folder@);
    replacing_puts_one_text_for_another("{schedule_value}"@, "{chat_jid}"@, task.chat_jid@);
    replacing_puts_one_text_for_another("{schedule_value}"@, "{prompt}"@, task.prompt@);
    replacing_puts_one_text_for_another(Seq::empty(), "{schedule_value}"@, task.schedule_value@);
}

/// A task that was run by a command ended as the last thing that the command marked: with
/// its result, or with its error; without any mark, with what cannot be read, or else with
/// what was printed. A command that failed is an error.
pub proof fn task_ends_with_its_last_word(
    outputs: Seq<ContainerOutput>,
    errors: Seq<Seq<char>>,
    stdout: Seq<char>,
)
    ensures
        ({
            let end = command_execution(last_of(outputs), errors, stdout);
            let last = outputs[outputs.len() - 1];
            let worked = last.status == ContainerOutputStatus::Success;
            &&& end.result is Some <==> end.error is None
            &&& outputs.len() > 0 ==> (end.error is None <==> worked)
            &&& outputs.len() > 0 && worked && last.result is Some ==> end.result
                == last.result.deep_view()
            &&& outputs.len() > 0 && !worked && last.error is Some ==> end.error
                == last.error.deep_view()
            &&& outputs.len() == 0 ==> (end.error is Some <==> errors.len() > 0)
            &&& outputs.len() == 0 && errors.len() > 0 ==> forall|i: int|
                0 <= i < errors.len() ==> contains_text(end.error->Some_0, #[trigger] errors[i])
            &&& outputs.len() == 0 && errors.len() == 0 && trimmed(stdout).len() > 0 ==> end.result
                == Some(trimmed(stdout))
        }),
{
    if outputs.len() == 0 && errors.len() > 0 {
        assert forall|i: int| 0 <= i < errors.len() implies contains_text(
            joined(errors, "; "@),
            #[trigger] errors[i],
        ) by {
            joined_text_holds_its_parts(errors, "; "@, i);
        }
    }
}

/// A task whose command fails is an error, and says how the command failed; one whose
/// command ends well ends as the command says.
pub proof fn failed_command_fails_its_task(
    result: Result<CommandRunResult, CommandRunError>,
)
    ensures
        (result matches Err(error) ==> {
            &&& task_end(result).result is None
            &&& task_end(result).error == Some(command_failure("command"@, error))
        }),
        (result matches Ok(output) ==> {
            let end = task_end(result);
            let last = output.outputs@[output.outputs@.len() - 1];
            let worked = last.status == ContainerOutputStatus::Success;
            &&& output.outputs@.len() > 0 ==> (end.error is None <==> worked)
            &&& output.outputs@.len() > 0 && worked && last.result is Some ==> end.result
                == last.result.deep_view()
            &&& output.outputs@.len() > 0 && !worked && last.error is Some ==> end.error
                == last.error.deep_view()
            &&& output.outputs@.len() == 0 && output.parse_errors@.len() == 0 && trimmed(
                output.stdout@,
            ).len() > 0 ==> end.result == Some(trimmed(output.stdout@))
        }),
{
    if let Ok(output) = result {
        task_ends_with_its_last_word(
            output.outputs@,
            output.parse_errors.deep_view(),
            output.stdout@,
        );
    }
}

} // verus!
