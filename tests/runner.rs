use dot_steward::config::{Config, Task};
use dot_steward::runner::{
    first_step, next_step, render_plan, ApplyStep, ExecutionError, TaskOutcome,
};

fn task(name: &str, command: &str) -> Task {
    Task {
        name: name.to_owned(),
        command: command.to_owned(),
        description: None,
    }
}

#[test]
fn plan_contains_tasks() {
    let cfg = Config {
        tasks: vec![Task {
            name: "example".to_owned(),
            command: "echo hi".to_owned(),
            description: None,
        }],
    };

    let plan = render_plan(&cfg);
    assert!(plan.contains("example"));
    assert!(plan.contains("echo hi"));
}

#[test]
fn plan_prints_task_summary() {
    let cfg = Config {
        tasks: vec![task("echo-task", "echo hello")],
    };
    let plan = render_plan(&cfg);
    assert!(plan.contains("Plan (1 tasks):"));
    assert!(plan.contains("echo-task"));
    assert_eq!(plan, "Plan (1 tasks):\n1. echo-task -> echo hello\n");
}

#[test]
fn plan_numbers_tasks_and_shows_descriptions() {
    let cfg = Config {
        tasks: vec![
            Task {
                name: "brew".to_owned(),
                command: "brew bundle".to_owned(),
                description: Some("install packages".to_owned()),
            },
            task("links", "stow ."),
            Task {
                name: "shell".to_owned(),
                command: "chsh -s /bin/zsh".to_owned(),
                description: Some(String::new()),
            },
        ],
    };
    assert_eq!(
        render_plan(&cfg),
        "Plan (3 tasks):\n\
         1. brew -> brew bundle\n\
         \x20  description: install packages\n\
         2. links -> stow .\n\
         3. shell -> chsh -s /bin/zsh\n\
         \x20  description: \n"
    );
}

#[test]
fn plan_of_no_tasks_is_the_header() {
    let cfg = Config { tasks: vec![] };
    assert_eq!(render_plan(&cfg), "Plan (0 tasks):\n");
}

#[test]
fn plan_is_the_same_twice() {
    let cfg = Config {
        tasks: vec![task("a", "echo a"), task("b", "echo b")],
    };
    let first = render_plan(&cfg);
    let second = render_plan(&cfg);
    assert_eq!(first.as_bytes(), second.as_bytes());
}

#[test]
fn plan_numbers_past_nine() {
    let mut tasks = Vec::new();
    for i in 1..=12 {
        tasks.push(task(&format!("t{i}"), "true"));
    }
    let plan = render_plan(&Config { tasks });
    let lines: Vec<&str> = plan.lines().collect();
    assert_eq!(lines[0], "Plan (12 tasks):");
    assert_eq!(lines.len(), 13);
    for (i, line) in lines[1..].iter().enumerate() {
        assert!(line.starts_with(&format!("{}. ", i + 1)));
    }
    assert_eq!(lines[12], "12. t12 -> true");
}

#[test]
fn apply_runs_tasks_in_order() {
    let cfg = Config {
        tasks: vec![task("a", "true"), task("b", "true")],
    };
    assert_eq!(first_step(&cfg), ApplyStep::Run(0));
    assert_eq!(next_step(&cfg, 0, TaskOutcome::Succeeded), ApplyStep::Run(1));
    assert_eq!(next_step(&cfg, 1, TaskOutcome::Succeeded), ApplyStep::Done);
}

#[test]
fn apply_of_no_tasks_is_done() {
    assert_eq!(first_step(&Config { tasks: vec![] }), ApplyStep::Done);
}

#[test]
fn apply_stops_at_failing_task() {
    let cfg = Config {
        tasks: vec![task("fails", "exit 3"), task("later", "echo never")],
    };
    let step = next_step(&cfg, 0, TaskOutcome::ExitFailure("exit status: 3".to_owned()));
    let expected = ExecutionError::Exit {
        task: "fails".to_owned(),
        status: "exit status: 3".to_owned(),
    };
    assert_eq!(step, ApplyStep::Failed(expected));
    if let ApplyStep::Failed(error) = step {
        assert_eq!(error.message(), "task 'fails' failed with status exit status: 3");
    }
}

#[test]
fn apply_stops_when_spawn_fails() {
    let cfg = Config {
        tasks: vec![task("a", "true"), task("b", "true"), task("c", "true")],
    };
    let step = next_step(&cfg, 1, TaskOutcome::SpawnFailure("not found".to_owned()));
    match step {
        ApplyStep::Failed(error) => {
            assert_eq!(
                error,
                ExecutionError::Spawn {
                    task: "b".to_owned(),
                    reason: "not found".to_owned(),
                }
            );
            assert_eq!(
                error.message(),
                "failed to spawn command for task b"
            );
        }
        other => panic!("expected a failure, got {other:?}"),
    }
}
