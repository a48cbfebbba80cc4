use vstd::prelude::*;

use crate::config::{Config, TaskSpec};
use crate::text::{
    decimal, has_no_newline, is_digit, is_line, lemma_decimal_digits, lemma_line_of,
    lemma_no_newline_concat, push_decimal,
};

verus! {

/// The header line of a plan of `count` tasks.
pub open spec fn plan_header(count: nat) -> Seq<char> {
    "Plan ("@ + decimal(count) + " tasks):\n"@
}

/// The main line of the task numbered `ordinal`.
pub open spec fn task_line(ordinal: nat, t: TaskSpec) -> Seq<char> {
    decimal(ordinal) + ". "@ + t.name + " -> "@ + t.command + "\n"@
}

/// The description line of a task, if it has a description.
pub open spec fn description_lines(t: TaskSpec) -> Seq<char> {
    match t.description {
        Some(d) => "   description: "@ + d + "\n"@,
        None => Seq::empty(),
    }
}

/// The plan entry of the task numbered `ordinal`.
pub open spec fn task_entry(ordinal: nat, t: TaskSpec) -> Seq<char> {
    task_line(ordinal, t) + description_lines(t)
}

/// The plan entries, one per task, numbered from 1 in declaration order.
pub open spec fn plan_entries(tasks: Seq<TaskSpec>) -> Seq<Seq<char>> {
    Seq::new(tasks.len(), |k: int| task_entry((k + 1) as nat, tasks[k]))
}

/// The whole plan of a task list.
pub open spec fn plan_text(tasks: Seq<TaskSpec>) -> Seq<char> {
    plan_header(tasks.len()) + plan_entries(tasks).flatten()
}

/// Renders the plan: a header with the task count, then each task in order.
pub fn render_plan(config: &Config) -> (r: String)
    ensures
        r@ == plan_text(config@),
{
    let count = config.tasks.len();
    let mut out = String::from_str("Plan (");
    push_decimal(&mut out, count);
    out.append(" tasks):\n");
    let ghost entries = plan_entries(config@);
    let mut i: usize = 0;
    while i < count
        invariant
            count == config@.len(),
            i <= count,
            entries == plan_entries(config@),
            out@ == plan_header(count as nat) + entries.take(i as int).flatten(),
        decreases count - i,
    {
        let task = &config.tasks[i];
        let ghost before = out@;
        push_decimal(&mut out, i + 1);
        out.append(". ");
        out.append(task.name.as_str());
        out.append(" -> ");
        out.append(task.command.as_str());
        out.append("\n");
        match &task.description {
            Some(d) => {
                out.append("   description: ");
                out.append(d.as_str());
                out.append("\n");
            },
            None => {},
        }
        proof {
            assert(out@ =~= before + entries[i as int]);
            assert(entries.take(i + 1) =~= entries.take(i as int).push(entries[i as int]));
            entries.take(i as int).lemma_flatten_push(entries[i as int]);
        }
        i = i + 1;
    }
    assert(entries.take(i as int) =~= entries);
    out
}

/// What became of one task's command, as observed by whoever ran it.
#[derive(Debug, PartialEq, Eq)]
pub enum TaskOutcome {
    /// The command ran and reported success.
    Succeeded,
    /// The command ran and reported failure; the observed exit status.
    ExitFailure(String),
    /// The command could not be started; why.
    SpawnFailure(String),
}

/// Why an apply run stopped.
#[derive(Debug, PartialEq, Eq)]
pub enum ExecutionError {
    /// The command of `task` could not be started; `reason` is the cause,
    /// kept apart from the error's own text.
    Spawn { task: String, reason: String },
    /// The command of `task` reported failure with `status`.
    Exit { task: String, status: String },
}

impl ExecutionError {
    /// The error's text.
    pub open spec fn text(&self) -> Seq<char> {
        match self {
            ExecutionError::Spawn { task, .. } => "failed to spawn command for task "@ + task@,
            ExecutionError::Exit { task, status } => "task '"@ + task@ + "' failed with status "@
                + status@,
        }
    }

    /// The error's text, as a `String`.
    pub fn message(&self) -> (r: String)
        ensures
            r@ == self.text(),
    {
        match self {
            ExecutionError::Spawn { task, .. } => {
                let mut out = String::from_str("failed to spawn command for task ");
                out.append(task.as_str());
                out
            },
            ExecutionError::Exit { task, status } => {
                let mut out = String::from_str("task '");
                out.append(task.as_str());
                out.append("' failed with status ");
                out.append(status.as_str());
                out
            },
        }
    }
}

/// What an apply run does next.
#[derive(Debug, PartialEq, Eq)]
pub enum ApplyStep {
    /// Run the command of the task at this position.
    Run(usize),
    /// Every task succeeded.
    Done,
    /// A task failed; no later task is run.
    Failed(ExecutionError),
}

/// The first step of an apply run: the first task, or done if there is none.
pub fn first_step(config: &Config) -> (r: ApplyStep)
    ensures
        config@.len() > 0 ==> r matches ApplyStep::Run(0),
        config@.len() == 0 ==> r matches ApplyStep::Done,
{
    if config.tasks.len() > 0 {
        ApplyStep::Run(0)
    } else {
        ApplyStep::Done
    }
}

/// The step after the task at `index` ran with `outcome`: the next task in
/// declaration order on success, done after the last one, and a stop at the
/// first failure.
pub fn next_step(config: &Config, index: usize, outcome: TaskOutcome) -> (r: ApplyStep)
    requires
        index < config@.len(),
    ensures
        match outcome {
            TaskOutcome::Succeeded => if index + 1 < config@.len() {
                r matches ApplyStep::Run(next) && next == index + 1
            } else {
                r matches ApplyStep::Done
            },
            TaskOutcome::ExitFailure(status) => r matches ApplyStep::Failed(
                ExecutionError::Exit { task, status: seen },
            ) && task@ == config@[index as int].name && seen@ == status@,
            TaskOutcome::SpawnFailure(reason) => r matches ApplyStep::Failed(
                ExecutionError::Spawn { task, reason: why },
            ) && task@ == config@[index as int].name && why@ == reason@,
        },
{
    let count = config.tasks.len();
    match outcome {
        TaskOutcome::Succeeded => {
            if index + 1 < count {
                ApplyStep::Run(index + 1)
            } else {
                ApplyStep::Done
            }
        },
        TaskOutcome::ExitFailure(status) => {
            let task = config.tasks[index].name.clone();
            ApplyStep::Failed(ExecutionError::Exit { task, status })
        },
        TaskOutcome::SpawnFailure(reason) => {
            let task = config.tasks[index].name.clone();
            ApplyStep::Failed(ExecutionError::Spawn { task, reason })
        },
    }
}

/// The plan of `n` tasks opens with the line `Plan (n tasks):` and goes on
/// with one entry per task, in declaration order: the entry of the k-th task
/// begins with `k. `, then the task's name, ` -> ` and its command, and ends
/// a line.
pub proof fn lemma_plan_numbered(tasks: Seq<TaskSpec>)
    ensures
        plan_text(tasks) == "Plan ("@ + decimal(tasks.len()) + " tasks):\n"@ + plan_entries(
            tasks,
        ).flatten(),
        plan_entries(tasks).len() == tasks.len(),
        forall|k: int|
            0 <= k < tasks.len() ==> {
                let e = #[trigger] plan_entries(tasks)[k];
                let head = decimal((k + 1) as nat) + ". "@ + tasks[k].name + " -> "@
                    + tasks[k].command;
                e.take(head.len() as int) == head && e.len() > head.len() && e[head.len() as int]
                    == '\n'
            },
{
    reveal_strlit("\n");
    assert forall|k: int| 0 <= k < tasks.len() implies {
        let e = #[trigger] plan_entries(tasks)[k];
        let head = decimal((k + 1) as nat) + ". "@ + tasks[k].name + " -> "@ + tasks[k].command;
        e.take(head.len() as int) == head && e.len() > head.len() && e[head.len() as int] == '\n'
    } by {
        let e = plan_entries(tasks)[k];
        let head = decimal((k + 1) as nat) + ". "@ + tasks[k].name + " -> "@ + tasks[k].command;
        assert(e =~= head + "\n"@ + description_lines(tasks[k]));
        assert(e.take(head.len() as int) =~= head);
    }
}

/// A task with a description has the line `   description: {text}` right
/// after its main line; a task without one has no further line.
pub proof fn lemma_description_follows(tasks: Seq<TaskSpec>, k: int)
    requires
        0 <= k < tasks.len(),
    ensures
        tasks[k].description matches Some(d) ==> plan_entries(tasks)[k] == task_line(
            (k + 1) as nat,
            tasks[k],
        ) + "   description: "@ + d + "\n"@,
        tasks[k].description is None ==> plan_entries(tasks)[k] == task_line(
            (k + 1) as nat,
            tasks[k],
        ),
{
    let e = plan_entries(tasks)[k];
    match tasks[k].description {
        Some(d) => {
            assert(e =~= task_line((k + 1) as nat, tasks[k]) + "   description: "@ + d + "\n"@);
        },
        None => {
            assert(e =~= task_line((k + 1) as nat, tasks[k]));
        },
    }
}

/// The lines of one task's plan entry.
pub open spec fn task_lines(ordinal: nat, t: TaskSpec) -> Seq<Seq<char>> {
    match t.description {
        Some(d) => seq![task_line(ordinal, t), "   description: "@ + d + "\n"@],
        None => seq![task_line(ordinal, t)],
    }
}

/// The header line, then the lines of the first `n` tasks.
pub open spec fn plan_lines_upto(tasks: Seq<TaskSpec>, n: nat) -> Seq<Seq<char>>
    decreases n,
{
    if n == 0 {
        seq![plan_header(tasks.len())]
    } else {
        plan_lines_upto(tasks, (n - 1) as nat) + task_lines(n, tasks[n - 1])
    }
}

/// The lines of a plan.
pub open spec fn plan_lines(tasks: Seq<TaskSpec>) -> Seq<Seq<char>> {
    plan_lines_upto(tasks, tasks.len())
}

/// A line is numbered when it begins with a digit.
pub open spec fn is_numbered(line: Seq<char>) -> bool {
    line.len() > 0 && is_digit(line[0])
}

pub open spec fn numbered_lines(lines: Seq<Seq<char>>) -> Seq<Seq<char>> {
    lines.filter(|l: Seq<char>| is_numbered(l))
}

/// No name, command or description holds a line break.
pub open spec fn single_line_fields(tasks: Seq<TaskSpec>) -> bool {
    forall|k: int|
        0 <= k < tasks.len() ==> has_no_newline(#[trigger] tasks[k].name) && has_no_newline(
            tasks[k].command,
        ) && (tasks[k].description matches Some(d) ==> has_no_newline(d))
}

proof fn lemma_task_lines(tasks: Seq<TaskSpec>, ordinal: nat, t: TaskSpec)
    requires
        has_no_newline(t.name),
        has_no_newline(t.command),
        t.description matches Some(d) ==> has_no_newline(d),
    ensures
        task_lines(ordinal, t).flatten() == task_entry(ordinal, t),
        forall|i: int|
            0 <= i < task_lines(ordinal, t).len() ==> is_line(#[trigger] task_lines(ordinal, t)[i]),
        numbered_lines(task_lines(ordinal, t)) == seq![task_line(ordinal, t)],
{
    reveal_strlit(". ");
    reveal_strlit(" -> ");
    reveal_strlit("   description: ");
    lemma_decimal_digits(ordinal);
    let lines = task_lines(ordinal, t);
    let main = task_line(ordinal, t);
    let content = decimal(ordinal) + ". "@ + t.name + " -> "@ + t.command;
    lemma_no_newline_concat(decimal(ordinal), ". "@);
    lemma_no_newline_concat(decimal(ordinal) + ". "@, t.name);
    lemma_no_newline_concat(decimal(ordinal) + ". "@ + t.name, " -> "@);
    lemma_no_newline_concat(decimal(ordinal) + ". "@ + t.name + " -> "@, t.command);
    lemma_line_of(content);
    assert(main[0] == decimal(ordinal)[0]);
    assert(is_numbered(main));
    reveal_with_fuel(Seq::filter, 3);
    match t.description {
        Some(d) => {
            let extra = "   description: "@ + d + "\n"@;
            lemma_no_newline_concat("   description: "@, d);
            lemma_line_of("   description: "@ + d);
            assert(!is_numbered(extra));
            assert(lines.drop_last() =~= seq![main]);
            assert(seq![main].drop_last() =~= Seq::<Seq<char>>::empty());
            assert(numbered_lines(lines) =~= seq![main]);
            seq![main].lemma_flatten_push(extra);
            seq![main].lemma_flatten_one_element();
            assert(lines =~= seq![main].push(extra));
            assert(lines.flatten() =~= task_entry(ordinal, t));
        },
        None => {
            assert(lines.drop_last() =~= Seq::<Seq<char>>::empty());
            assert(numbered_lines(lines) =~= seq![main]);
            lines.lemma_flatten_one_element();
            assert(lines.flatten() =~= task_entry(ordinal, t));
        },
    }
}

proof fn lemma_plan_lines_upto(tasks: Seq<TaskSpec>, n: nat)
    requires
        n <= tasks.len(),
        single_line_fields(tasks),
    ensures
        plan_lines_upto(tasks, n).flatten() == plan_header(tasks.len()) + plan_entries(tasks).take(
            n as int,
        ).flatten(),
        forall|i: int|
            0 <= i < plan_lines_upto(tasks, n).len() ==> is_line(
                #[trigger] plan_lines_upto(tasks, n)[i],
            ),
        plan_lines_upto(tasks, n)[0] == plan_header(tasks.len()),
        numbered_lines(plan_lines_upto(tasks, n)) == Seq::new(
            n,
            |k: int| task_line((k + 1) as nat, tasks[k]),
        ),
    decreases n,
{
    let lines = plan_lines_upto(tasks, n);
    reveal_with_fuel(Seq::filter, 2);
    if n == 0 {
        reveal_strlit("Plan (");
        reveal_strlit(" tasks):\n");
        let header = plan_header(tasks.len());
        lemma_decimal_digits(tasks.len());
        lemma_no_newline_concat("Plan ("@, decimal(tasks.len()));
        reveal_strlit(" tasks):");
        lemma_no_newline_concat("Plan ("@ + decimal(tasks.len()), " tasks):"@);
        assert(" tasks):\n"@ =~= " tasks):"@ + "\n"@) by {
            reveal_strlit("\n");
        }
        assert(header =~= "Plan ("@ + decimal(tasks.len()) + " tasks):"@ + "\n"@);
        lemma_line_of("Plan ("@ + decimal(tasks.len()) + " tasks):"@);
        assert(!is_numbered(header));
        assert(lines.drop_last() =~= Seq::<Seq<char>>::empty());
        assert(numbered_lines(lines) =~= Seq::<Seq<char>>::empty());
        lines.lemma_flatten_one_element();
        assert(plan_entries(tasks).take(0) =~= Seq::<Seq<char>>::empty());
        assert(lines.flatten() =~= header + plan_entries(tasks).take(0).flatten());
    } else {
        let prev = plan_lines_upto(tasks, (n - 1) as nat);
        let t = tasks[n - 1];
        lemma_plan_lines_upto(tasks, (n - 1) as nat);
        lemma_task_lines(tasks, n, t);
        let more = task_lines(n, t);
        vstd::seq_lib::lemma_flatten_concat(prev, more);
        let entries = plan_entries(tasks);
        assert(entries.take(n as int) =~= entries.take(n - 1).push(entries[n - 1]));
        entries.take(n - 1).lemma_flatten_push(entries[n - 1]);
        assert(lines.flatten() =~= plan_header(tasks.len()) + entries.take(n as int).flatten());
        assert forall|i: int| 0 <= i < lines.len() implies is_line(#[trigger] lines[i]) by {
            if i < prev.len() {
                assert(lines[i] == prev[i]);
            } else {
                assert(lines[i] == more[i - prev.len()]);
            }
        }
        Seq::filter_distributes_over_add(prev, more, |l: Seq<char>| is_numbered(l));
        assert(numbered_lines(lines) =~= Seq::new(
            n,
            |k: int| task_line((k + 1) as nat, tasks[k]),
        ));
    }
}

/// When no name, command or description holds a line break, the plan is
/// made of whole lines: the first is `Plan (n tasks):`, and those that begin
/// with a digit are exactly one per task, in declaration order, the k-th
/// being `k. {name} -> {command}`.
pub proof fn lemma_plan_lines(tasks: Seq<TaskSpec>)
    requires
        single_line_fields(tasks),
    ensures
        plan_lines(tasks).flatten() == plan_text(tasks),
        forall|i: int| 0 <= i < plan_lines(tasks).len() ==> is_line(#[trigger] plan_lines(tasks)[i]),
        plan_lines(tasks)[0] == "Plan ("@ + decimal(tasks.len()) + " tasks):\n"@,
        numbered_lines(plan_lines(tasks)) == Seq::new(
            tasks.len(),
            |k: int| decimal((k + 1) as nat) + ". "@ + tasks[k].name + " -> "@ + tasks[k].command
                + "\n"@,
        ),
{
    lemma_plan_lines_upto(tasks, tasks.len());
    assert(plan_entries(tasks).take(tasks.len() as int) =~= plan_entries(tasks));
    assert(numbered_lines(plan_lines(tasks)) =~= Seq::new(
        tasks.len(),
        |k: int| decimal((k + 1) as nat) + ". "@ + tasks[k].name + " -> "@ + tasks[k].command
            + "\n"@,
    ));
}

/// Rendering the plan of the same task list twice gives the same text.
pub proof fn lemma_plan_repeatable(tasks: Seq<TaskSpec>, first: Seq<char>, second: Seq<char>)
    requires
        first == plan_text(tasks),
        second == plan_text(tasks),
    ensures
        first == second,
{
}

} // verus!
