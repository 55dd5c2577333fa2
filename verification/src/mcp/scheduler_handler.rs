//! The tools for reminders and recurring jobs.
use crate::json;
use crate::json::{entry, list, object, Member};
use crate::mcp::arguments::Arguments;
use crate::mcp::error::{missing, McpError};
use crate::mcp::handler;
use crate::mcp::handler::{
    fail, no_tool, reply, status_json, CancelToken, Pending, Step, ToolHandler,
};
use crate::mcp::tools;
use crate::mcp::tools::{scheduler_tool_definitions, ToolDefinition, ToolView};
use crate::scheduler;
use crate::scheduler::{
    has_countable_interval, BusyPolicy, CronJob, CronJobView, ReminderView, Scheduler,
    SchedulerError, SchedulerView, WaitingView,
};
use crate::text;
use crate::text::{chars_equal, clone_optional, to_chars};
use crate::time::{Duration, Instant, Moment};
use vstd::prelude::*;
use vstd::string::*;

verus! {

/// Handles the calls of the tools for reminders and recurring jobs.
pub struct SchedulerToolHandler {
    scheduler: Scheduler,
}

impl View for SchedulerToolHandler {
    type V = SchedulerView;

    closed spec fn view(&self) -> SchedulerView {
        self.scheduler@
    }
}

/// An answer with an identifier.
pub open spec fn id_text(key: Seq<char>, id: Seq<char>) -> Seq<char> {
    json::object_text(seq![(key, json::string_text(id))])
}

/// An answer with an identifier.
pub fn id_json(key: &'static str, id: &str) -> (s: String)
    ensures
        s@ == id_text(key@, id@),
{
    let members: Vec<Member> = vec![entry(key, json::string(id))];
    assert(json::member_views(members@) =~= seq![(key@, json::string_text(id@))]);
    object(&members)
}

/// How the call that sets a reminder is answered.
pub open spec fn reminder_set_answer(
    before: SchedulerView,
    args: Arguments,
    now: Instant,
    after: SchedulerView,
    step: Step,
) -> bool {
    match (args.message, args.delay_seconds) {
        (None, _) => after == before && handler::lacks(step, "message"@),
        (Some(_), None) => after == before && handler::lacks(step, "delay_seconds"@),
        (Some(message), Some(delay)) => if before.next_reminder >= u64::MAX {
            after == before && step is Unsupported
        } else {
            let id = scheduler::reminder_id(before.next_reminder);
            let fire_at = Instant { nanos: (now.nanos + delay * 1_000_000_000) as u128 };
            &&& handler::replied(step, id_text("reminder_id"@, id))
            &&& after == before.with_reminder(message@, fire_at)
        },
    }
}

/// What is to be done where a session is busy, as a call says it.
pub open spec fn policy_of(name: Option<Seq<char>>) -> BusyPolicy {
    if name == Some("wait"@) {
        BusyPolicy::Wait
    } else {
        BusyPolicy::Drop
    }
}

/// How the call that sets up a recurring job is answered.
pub open spec fn cron_create_answer(
    before: SchedulerView,
    args: Arguments,
    now: Instant,
    after: SchedulerView,
    step: Step,
) -> bool {
    match (args.expression, args.command) {
        (None, _) => after == before && handler::lacks(step, "expression"@),
        (Some(_), None) => after == before && handler::lacks(step, "command"@),
        (Some(expression), Some(command)) => if before.next_cron >= u64::MAX
            || !scheduler::interval_fits(expression@) {
            after == before && step is Unsupported
        } else if scheduler::interval_seconds(expression@) is None {
            &&& after == before
            &&& step matches Step::Done(
                Err(McpError::Scheduler(SchedulerError::InvalidExpression(e))),
            ) && e@ == text::trim(expression@)
        } else {
            let id = scheduler::job_id(before.next_cron);
            &&& handler::replied(step, id_text("job_id"@, id))
            &&& after == before.with_job(
                expression@,
                command@,
                text::optional_view(args.session_id),
                policy_of(text::optional_view(args.if_busy)),
                now,
            )
        },
    }
}

/// The name of a policy.
pub open spec fn policy_name(policy: BusyPolicy) -> Seq<char> {
    match policy {
        BusyPolicy::Drop => "drop"@,
        BusyPolicy::Wait => "wait"@,
    }
}

/// A job, as it is written.
pub open spec fn job_text(job: CronJobView) -> Seq<char> {
    json::object_text(
        seq![
            ("command"@, json::string_text(job.command)),
            ("expression"@, json::string_text(job.expression)),
            ("id"@, json::string_text(job.id)),
            ("if_busy"@, json::string_text(policy_name(job.if_busy))),
            ("session_id"@, json::optional_text(job.session_id)),
        ],
    )
}

/// Jobs, as they are written.
pub open spec fn jobs_text(jobs: Seq<CronJobView>) -> Seq<char> {
    json::list_text(jobs.map_values(|j: CronJobView| job_text(j)))
}

/// How the call that removes a job is answered.
pub open spec fn cron_delete_answer(
    before: SchedulerView,
    args: Arguments,
    after: SchedulerView,
    step: Step,
) -> bool {
    match args.job_id {
        None => after == before && handler::lacks(step, "job_id"@),
        Some(id) => if before.has_job(id@) {
            &&& handler::replied(step, handler::status_text("ok"@))
            &&& after == before.without_job(id@)
        } else {
            &&& after == before
            &&& step matches Step::Done(Err(McpError::Scheduler(SchedulerError::NotFound(name))))
                && name@ == id@
        },
    }
}

/// How a call of a tool is answered.
pub open spec fn scheduler_answer(
    before: SchedulerView,
    name: Seq<char>,
    args: Arguments,
    moment: Moment,
    after: SchedulerView,
    step: Step,
) -> bool {
    if name == "tttt_reminder_set"@ {
        reminder_set_answer(before, args, moment.now, after, step)
    } else if name == "tttt_cron_create"@ {
        cron_create_answer(before, args, moment.now, after, step)
    } else if name == "tttt_cron_list"@ {
        after == before && handler::replied(step, jobs_text(before.jobs))
    } else if name == "tttt_cron_delete"@ {
        cron_delete_answer(before, args, after, step)
    } else {
        after == before && handler::lacks_tool(step, name)
    }
}

fn job_json(job: &CronJob) -> (s: String)
    ensures
        s@ == job_text(job@),
{
    let policy = match job.if_busy {
        BusyPolicy::Drop => "drop",
        BusyPolicy::Wait => "wait",
    };
    let members: Vec<Member> = vec![
        entry("command", json::string(job.command.as_str())),
        entry("expression", json::string(job.expression.as_str())),
        entry("id", json::string(job.id.as_str())),
        entry("if_busy", json::string(policy)),
        entry("session_id", json::optional_string(&job.session_id)),
    ];
    assert(json::member_views(members@) =~= seq![
        ("command"@, json::string_text(job@.command)),
        ("expression"@, json::string_text(job@.expression)),
        ("id"@, json::string_text(job@.id)),
        ("if_busy"@, json::string_text(policy_name(job@.if_busy))),
        ("session_id"@, json::optional_text(job@.session_id)),
    ]);
    object(&members)
}

impl SchedulerToolHandler {
    /// The scheduler is valid.
    pub closed spec fn valid(&self) -> bool {
        self.scheduler.wf()
    }

    /// A handler that owns its scheduler.
    pub fn new(scheduler: Scheduler) -> (h: Self)
        requires
            scheduler.wf(),
        ensures
            h.valid(),
            h@ == scheduler@,
    {
        SchedulerToolHandler { scheduler }
    }

    /// A handler that owns its scheduler.
    pub fn new_owned(scheduler: Scheduler) -> (h: Self)
        requires
            scheduler.wf(),
        ensures
            h.valid(),
            h@ == scheduler@,
    {
        SchedulerToolHandler::new(scheduler)
    }

    /// The scheduler.
    pub fn scheduler(&self) -> (s: &Scheduler)
        requires
            self.valid(),
        ensures
            s@ == self@,
            s.wf(),
    {
        &self.scheduler
    }

    /// The scheduler, to be changed.
    pub fn scheduler_mut(&mut self) -> (s: &mut Scheduler)
        requires
            old(self).valid(),
        ensures
            s@ == old(self)@,
            s.wf(),
            final(self)@ == (*final(s))@,
            (*final(s)).wf() ==> final(self).valid(),
    {
        &mut self.scheduler
    }

    /// Sets a reminder.
    pub fn handle_reminder_set(&mut self, args: &Arguments, moment: Moment) -> (step: Step)
        requires
            old(self).valid(),
            moment.wf(),
        ensures
            final(self).valid(),
            reminder_set_answer(old(self)@, *args, moment.now, final(self)@, step),
    {
        let message = match &args.message {
            None => {
                return fail(missing("message"));
            },
            Some(m) => m.clone(),
        };
        let delay = match args.delay_seconds {
            None => {
                return fail(missing("delay_seconds"));
            },
            Some(n) => n,
        };
        if !self.scheduler.can_add_reminder() {
            return Step::Unsupported;
        }
        let fire_at = moment.now.plus(Duration::from_secs(delay));
        let id = self.scheduler.add_reminder(message, fire_at);
        reply(id_json("reminder_id", id.as_str()))
    }

    /// Sets up a recurring job.
    pub fn handle_cron_create(&mut self, args: &Arguments, moment: Moment) -> (step: Step)
        requires
            old(self).valid(),
            moment.wf(),
        ensures
            final(self).valid(),
            cron_create_answer(old(self)@, *args, moment.now, final(self)@, step),
    {
        let expression = match &args.expression {
            None => {
                return fail(missing("expression"));
            },
            Some(e) => e.clone(),
        };
        let command = match &args.command {
            None => {
                return fail(missing("command"));
            },
            Some(c) => c.clone(),
        };
        let session_id = clone_optional(&args.session_id);
        let if_busy = match &args.if_busy {
            Some(name) => BusyPolicy::from_str_opt(Some(name.as_str())),
            None => BusyPolicy::from_str_opt(None),
        };
        assert(if_busy == policy_of(text::optional_view(args.if_busy)));
        if !self.scheduler.can_add_cron() || !has_countable_interval(expression.as_str()) {
            return Step::Unsupported;
        }
        match self.scheduler.add_cron(expression, command, session_id, if_busy, moment.now) {
            Ok(id) => reply(id_json("job_id", id.as_str())),
            Err(e) => fail(McpError::Scheduler(e)),
        }
    }

    /// Lists the recurring jobs.
    pub fn handle_cron_list(&self) -> (step: Step)
        ensures
            handler::replied(step, jobs_text(self@.jobs)),
    {
        let jobs = self.scheduler.list_cron();
        let mut items: Vec<String> = Vec::new();
        let mut i: usize = 0;
        while i < jobs.len()
            invariant
                i <= jobs.len(),
                items.len() == i,
                forall|k: int| 0 <= k < i ==> (#[trigger] items@[k])@ == job_text(jobs@[k]@),
            decreases jobs.len() - i,
        {
            items.push(job_json(&jobs[i]));
            i += 1;
        }
        assert(json::views(items@) =~= self@.jobs.map_values(|j: CronJobView| job_text(j))) by {
            assert(self@.jobs.len() == jobs.len());
            assert forall|k: int| 0 <= k < jobs.len() implies self@.jobs[k] == jobs@[k]@ by {
                assert(jobs@.map_values(|j: CronJob| j@)[k] == jobs@[k]@);
            }
        }
        reply(list(&items))
    }

    /// Removes a recurring job.
    pub fn handle_cron_delete(&mut self, args: &Arguments) -> (step: Step)
        requires
            old(self).valid(),
        ensures
            final(self).valid(),
            cron_delete_answer(old(self)@, *args, final(self)@, step),
    {
        match &args.job_id {
            None => fail(missing("job_id")),
            Some(id) => match self.scheduler.remove_cron(id.as_str()) {
                Ok(_) => reply(status_json("ok")),
                Err(e) => fail(McpError::Scheduler(e)),
            },
        }
    }
}

impl ToolHandler for SchedulerToolHandler {
    open spec fn wf(&self) -> bool {
        self.valid()
    }

    open spec fn answers(
        before: Self,
        name: Seq<char>,
        args: Arguments,
        moment: Moment,
        after: Self,
        step: Step,
    ) -> bool {
        scheduler_answer(before@, name, args, moment, after@, step)
    }

    open spec fn resumes(
        before: Self,
        task: Pending,
        moment: Moment,
        after: Self,
        step: Step,
    ) -> bool {
        after == before && step is Unsupported
    }

    open spec fn told(before: Self, token: CancelToken, after: Self) -> bool {
        after == before
    }

    open spec fn offers(&self) -> Seq<ToolView> {
        tools::scheduler_tools()
    }

    fn handle_tool_call(&mut self, name: &str, args: &Arguments, moment: Moment) -> (step: Step) {
        let called = to_chars(name);
        if chars_equal(&called, "tttt_reminder_set") {
            self.handle_reminder_set(args, moment)
        } else if chars_equal(&called, "tttt_cron_create") {
            self.handle_cron_create(args, moment)
        } else if chars_equal(&called, "tttt_cron_list") {
            self.handle_cron_list()
        } else if chars_equal(&called, "tttt_cron_delete") {
            self.handle_cron_delete(args)
        } else {
            no_tool(name)
        }
    }

    fn resume(&mut self, task: Pending, moment: Moment) -> (step: Step) {
        Step::Unsupported
    }

    fn set_cancel_token(&mut self, token: CancelToken) {
    }

    fn tool_definitions(&self) -> (tools: Vec<ToolDefinition>) {
        scheduler_tool_definitions()
    }
}

/// A handler knows exactly the tools that it offers; a call of any other changes nothing.
pub proof fn law_scheduler_tools_are_those_offered(
    before: SchedulerView,
    name: Seq<char>,
    args: Arguments,
    moment: Moment,
    after: SchedulerView,
    step: Step,
)
    requires
        scheduler_answer(before, name, args, moment, after, step),
    ensures
        handler::lacks_tool(step, name) == !tools::has_tool(tools::scheduler_tools(), name),
        handler::lacks_tool(step, name) ==> after == before,
{
    let all = tools::scheduler_tools();
    assert(all[0].name == "tttt_reminder_set"@);
    assert(all[1].name == "tttt_cron_create"@);
    assert(all[2].name == "tttt_cron_list"@);
    assert(all[3].name == "tttt_cron_delete"@);
}

} // verus!
