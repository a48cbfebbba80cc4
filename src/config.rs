use vstd::prelude::*;

use crate::text::{blank, contains, decimal, decimal_string, is_blank, is_white_space};

verus! {

/// One named unit of work: a shell command with an optional description.
#[derive(Debug, PartialEq, Eq)]
pub struct Task {
    pub name: String,
    pub command: String,
    pub description: Option<String>,
}

/// The task list, in declaration order.
#[derive(Debug, PartialEq, Eq)]
pub struct Config {
    pub tasks: Vec<Task>,
}

/// What a task holds, as character sequences.
pub struct TaskSpec {
    pub name: Seq<char>,
    pub command: Seq<char>,
    pub description: Option<Seq<char>>,
}

impl View for Task {
    type V = TaskSpec;

    open spec fn view(&self) -> TaskSpec {
        TaskSpec {
            name: self.name@,
            command: self.command@,
            description: match self.description {
                Some(d) => Some(d@),
                None => None,
            },
        }
    }
}

impl View for Config {
    type V = Seq<TaskSpec>;

    open spec fn view(&self) -> Seq<TaskSpec> {
        self.tasks@.map_values(|t: Task| t@)
    }
}

/// Why a configuration is refused.
#[derive(Debug, PartialEq, Eq)]
pub enum ConfigError {
    /// The task list is empty.
    NoTasks,
    /// The issues found, in the order in which they were found.
    Invalid(Vec<String>),
}

/// The text of the error for an empty task list.
pub open spec fn no_tasks_message() -> Seq<char> {
    "config must contain at least one task entry"@
}

/// The issue of a blank name, by the task's position counted from 1.
pub open spec fn empty_name_issue(ordinal: nat) -> Seq<char> {
    "task at position "@ + decimal(ordinal) + " has an empty name"@
}

/// The issue of a name that an earlier task already has.
pub open spec fn duplicate_name_issue(name: Seq<char>) -> Seq<char> {
    "duplicate task name '"@ + name + "'"@
}

/// The issue of a blank command, by the task's name as given.
pub open spec fn empty_command_issue(name: Seq<char>) -> Seq<char> {
    "task '"@ + name + "' has an empty command"@
}

/// Some task before position `i` has the same name as the task at `i`.
/// Only a name that is not blank is checked against earlier ones, and an
/// earlier task with that same name is not blank either: so this is the same
/// as the name being among the names seen so far.
pub open spec fn name_taken(tasks: Seq<TaskSpec>, i: int) -> bool {
    exists|j: int| 0 <= j < i && #[trigger] tasks[j].name == tasks[i].name
}

/// The issues of the task at position `i`: its name first, then its command.
pub open spec fn task_issues(tasks: Seq<TaskSpec>, i: int) -> Seq<Seq<char>> {
    let t = tasks[i];
    let name_issues = if is_blank(t.name) {
        seq![empty_name_issue((i + 1) as nat)]
    } else if name_taken(tasks, i) {
        seq![duplicate_name_issue(t.name)]
    } else {
        Seq::empty()
    };
    let command_issues = if is_blank(t.command) {
        seq![empty_command_issue(t.name)]
    } else {
        Seq::empty()
    };
    name_issues + command_issues
}

/// The issues of the first `n` tasks, in declaration order.
pub open spec fn issues_upto(tasks: Seq<TaskSpec>, n: nat) -> Seq<Seq<char>>
    decreases n,
{
    if n == 0 {
        Seq::empty()
    } else {
        issues_upto(tasks, (n - 1) as nat) + task_issues(tasks, n - 1)
    }
}

/// Every issue of a task list, in declaration order.
pub open spec fn issues(tasks: Seq<TaskSpec>) -> Seq<Seq<char>> {
    issues_upto(tasks, tasks.len())
}

/// A task list is accepted when it is not empty and has no issue.
pub open spec fn accepts(tasks: Seq<TaskSpec>) -> bool {
    tasks.len() > 0 && issues(tasks).len() == 0
}

/// The composite report: a header line, then one bullet line per issue.
pub open spec fn report(issues: Seq<Seq<char>>) -> Seq<char> {
    "invalid configuration:"@ + issues.map_values(|s: Seq<char>| "\n- "@ + s).flatten()
}

impl ConfigError {
    /// The error's text.
    pub open spec fn text(&self) -> Seq<char> {
        match self {
            ConfigError::NoTasks => no_tasks_message(),
            ConfigError::Invalid(list) => report(list.deep_view()),
        }
    }

    /// The error's text, as a `String`.
    pub fn message(&self) -> (r: String)
        ensures
            r@ == self.text(),
    {
        match self {
            ConfigError::NoTasks => String::from_str("config must contain at least one task entry"),
            ConfigError::Invalid(list) => {
                let mut out = String::from_str("invalid configuration:");
                let ghost all = list.deep_view();
                let ghost bullets = all.map_values(|s: Seq<char>| "\n- "@ + s);
                let mut i: usize = 0;
                while i < list.len()
                    invariant
                        i <= list.len(),
                        all == list.deep_view(),
                        bullets == all.map_values(|s: Seq<char>| "\n- "@ + s),
                        out@ == "invalid configuration:"@ + bullets.take(i as int).flatten(),
                    decreases list.len() - i,
                {
                    out.append("\n- ");
                    out.append(list[i].as_str());
                    proof {
                        assert(bullets.take(i + 1) =~= bullets.take(i as int).push(bullets[i as int]));
                        bullets.take(i as int).lemma_flatten_push(bullets[i as int]);
                    }
                    i = i + 1;
                }
                assert(bullets.take(i as int) =~= bullets);
                out
            },
        }
    }
}

/// Whether a task before position `i` has the same name as the task at `i`.
fn name_seen_before(config: &Config, i: usize) -> (r: bool)
    requires
        i < config@.len(),
    ensures
        r == name_taken(config@, i as int),
{
    let name = &config.tasks[i].name;
    let mut j: usize = 0;
    while j < i
        invariant
            i < config@.len(),
            j <= i,
            name@ == config@[i as int].name,
            forall|k: int| 0 <= k < j ==> #[trigger] config@[k].name != config@[i as int].name,
        decreases i - j,
    {
        if config.tasks[j].name == *name {
            assert(config@[j as int].name == config@[i as int].name);
            return true;
        }
        j = j + 1;
    }
    false
}

/// Appends the issues of the task at position `i`.
fn push_task_issues(config: &Config, i: usize, found: &mut Vec<String>)
    requires
        i < config@.len(),
    ensures
        final(found).deep_view() == old(found).deep_view() + task_issues(config@, i as int),
{
    let count = config.tasks.len();
    let task = &config.tasks[i];
    let ghost before = found.deep_view();
    if blank(task.name.as_str()) {
        let mut issue = String::from_str("task at position ");
        assert(i < count);
        let ordinal = decimal_string(i + 1);
        issue.append(ordinal.as_str());
        issue.append(" has an empty name");
        found.push(issue);
    } else if name_seen_before(config, i) {
        let mut issue = String::from_str("duplicate task name '");
        issue.append(task.name.as_str());
        issue.append("'");
        found.push(issue);
    }
    let ghost middle = found.deep_view();
    assert(middle =~= before + (if is_blank(config@[i as int].name) {
        seq![empty_name_issue((i + 1) as nat)]
    } else if name_taken(config@, i as int) {
        seq![duplicate_name_issue(config@[i as int].name)]
    } else {
        Seq::empty()
    }));
    if blank(task.command.as_str()) {
        let mut issue = String::from_str("task '");
        issue.append(task.name.as_str());
        issue.append("' has an empty command");
        found.push(issue);
    }
    assert(found.deep_view() =~= before + task_issues(config@, i as int));
}

/// Checks a configuration, reporting every issue at once.
pub fn validate_config(config: &Config) -> (r: Result<(), ConfigError>)
    ensures
        r matches Ok(()) <==> accepts(config@),
        r matches Err(ConfigError::NoTasks) <==> config@.len() == 0,
        r matches Err(ConfigError::Invalid(found)) ==> config@.len() > 0 && found.deep_view()
            == issues(config@) && issues(config@).len() > 0,
{
    if config.tasks.len() == 0 {
        return Err(ConfigError::NoTasks);
    }
    let mut found: Vec<String> = Vec::new();
    let mut i: usize = 0;
    while i < config.tasks.len()
        invariant
            i <= config@.len(),
            found.deep_view() == issues_upto(config@, i as nat),
        decreases config@.len() - i,
    {
        push_task_issues(config, i, &mut found);
        i = i + 1;
    }
    if found.len() == 0 {
        Ok(())
    } else {
        Err(ConfigError::Invalid(found))
    }
}

proof fn lemma_no_issues_upto(tasks: Seq<TaskSpec>, n: nat)
    requires
        n <= tasks.len(),
        forall|i: int|
            0 <= i < tasks.len() ==> !is_blank(#[trigger] tasks[i].name) && !is_blank(
                tasks[i].command,
            ),
        forall|i: int, j: int| 0 <= i < j < tasks.len() ==> tasks[i].name != tasks[j].name,
    ensures
        issues_upto(tasks, n).len() == 0,
    decreases n,
{
    if n > 0 {
        lemma_no_issues_upto(tasks, (n - 1) as nat);
        let i = n - 1;
        assert(!name_taken(tasks, i)) by {
            if name_taken(tasks, i) {
                let j = choose|j: int| 0 <= j < i && #[trigger] tasks[j].name == tasks[i].name;
                assert(tasks[j].name != tasks[i].name);
            }
        }
        assert(!is_blank(tasks[i].name));
        assert(task_issues(tasks, i).len() == 0);
    }
}

/// A non-empty task list whose names are pairwise distinct and not blank, and
/// whose commands are not blank, is accepted.
pub proof fn lemma_distinct_tasks_accepted(tasks: Seq<TaskSpec>)
    requires
        tasks.len() > 0,
        forall|i: int|
            0 <= i < tasks.len() ==> !is_blank(#[trigger] tasks[i].name) && !is_blank(
                tasks[i].command,
            ),
        forall|i: int, j: int| 0 <= i < j < tasks.len() ==> tasks[i].name != tasks[j].name,
    ensures
        accepts(tasks),
{
    lemma_no_issues_upto(tasks, tasks.len());
}

proof fn lemma_issues_upto_extends(tasks: Seq<TaskSpec>, m: nat, n: nat)
    requires
        m <= n <= tasks.len(),
    ensures
        issues_upto(tasks, m).len() <= issues_upto(tasks, n).len(),
        issues_upto(tasks, n).take(issues_upto(tasks, m).len() as int) == issues_upto(tasks, m),
    decreases n - m,
{
    if m < n {
        lemma_issues_upto_extends(tasks, m, (n - 1) as nat);
        let short = issues_upto(tasks, m);
        let mid = issues_upto(tasks, (n - 1) as nat);
        assert(issues_upto(tasks, n).take(short.len() as int) =~= mid.take(short.len() as int));
    } else {
        assert(issues_upto(tasks, n).take(issues_upto(tasks, m).len() as int) =~= issues_upto(
            tasks,
            m,
        ));
    }
}

proof fn lemma_report_contains(issues: Seq<Seq<char>>, m: int)
    requires
        0 <= m < issues.len(),
    ensures
        contains(report(issues), issues[m]),
{
    let bullets = issues.map_values(|s: Seq<char>| "\n- "@ + s);
    let before = bullets.take(m);
    let after = bullets.skip(m + 1);
    assert(bullets =~= before + seq![bullets[m]] + after);
    vstd::seq_lib::lemma_flatten_concat(before + seq![bullets[m]], after);
    vstd::seq_lib::lemma_flatten_concat(before, seq![bullets[m]]);
    seq![bullets[m]].lemma_flatten_one_element();
    let hay = report(issues);
    let k: int = ("invalid configuration:"@.len() + before.flatten().len() + "\n- "@.len()) as int;
    assert(hay =~= "invalid configuration:"@ + before.flatten() + "\n- "@ + issues[m]
        + after.flatten());
    assert(hay.subrange(k, k + issues[m].len() as int) =~= issues[m]);
}

/// A task list in which two tasks are named `dupe` is refused, and its report
/// holds the text `duplicate task name 'dupe'`.
pub proof fn lemma_duplicate_dupe_reported(tasks: Seq<TaskSpec>, i: int, j: int)
    requires
        0 <= i < j < tasks.len(),
        tasks[i].name == "dupe"@,
        tasks[j].name == "dupe"@,
    ensures
        !accepts(tasks),
        contains(report(issues(tasks)), "duplicate task name 'dupe'"@),
{
    reveal_strlit("dupe");
    reveal_strlit("duplicate task name '");
    reveal_strlit("'");
    reveal_strlit("duplicate task name 'dupe'");
    assert(!is_white_space(tasks[j].name[0]));
    assert(!is_blank(tasks[j].name));
    assert(tasks[i].name == tasks[j].name);
    assert(name_taken(tasks, j));
    let issue = duplicate_name_issue("dupe"@);
    assert(issue =~= "duplicate task name 'dupe'"@);
    let head = issues_upto(tasks, j as nat);
    let upto = issues_upto(tasks, (j + 1) as nat);
    assert(task_issues(tasks, j)[0] == issue);
    assert(upto[head.len() as int] == issue);
    lemma_issues_upto_extends(tasks, (j + 1) as nat, tasks.len());
    let all = issues(tasks);
    assert(all[head.len() as int] == issue) by {
        assert(all.take(upto.len() as int)[head.len() as int] == upto[head.len() as int]);
    }
    lemma_report_contains(all, head.len() as int);
}

} // verus!
