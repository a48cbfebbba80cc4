use dot_steward::config::{validate_config, Config, ConfigError, Task};

fn task(name: &str, command: &str) -> Task {
    Task {
        name: name.to_owned(),
        command: command.to_owned(),
        description: None,
    }
}

#[test]
fn rejects_duplicate_task_names() {
    let cfg = Config {
        tasks: vec![
            Task {
                name: "bootstrap".to_owned(),
                command: "echo first".to_owned(),
                description: None,
            },
            Task {
                name: "bootstrap".to_owned(),
                command: "echo second".to_owned(),
                description: None,
            },
        ],
    };

    let error = validate_config(&cfg).expect_err("expected duplicate-name validation error");
    assert!(error
        .message()
        .contains("duplicate task name 'bootstrap'"));
}

#[test]
fn validate_rejects_duplicate_task_names() {
    let cfg = Config {
        tasks: vec![task("dupe", "echo first"), task("dupe", "echo second")],
    };
    let error = validate_config(&cfg).expect_err("duplicate names are refused");
    assert!(error.message().contains("duplicate task name 'dupe'"));
    assert_eq!(
        error,
        ConfigError::Invalid(vec!["duplicate task name 'dupe'".to_owned()])
    );
}

#[test]
fn empty_task_list_is_refused() {
    let cfg = Config { tasks: vec![] };
    let error = validate_config(&cfg).expect_err("an empty list is refused");
    assert_eq!(error, ConfigError::NoTasks);
    assert!(error.message().contains("at least one task"));
    assert_eq!(
        error.message(),
        "config must contain at least one task entry"
    );
}

#[test]
fn distinct_tasks_are_accepted() {
    let cfg = Config {
        tasks: vec![
            task("brew", "brew bundle"),
            task("links", "stow ."),
            task("Brew", "echo case matters"),
        ],
    };
    assert_eq!(validate_config(&cfg), Ok(()));
}

#[test]
fn every_issue_is_reported_in_order() {
    let cfg = Config {
        tasks: vec![
            task("  ", "echo one"),
            task("a", "\t "),
            task("a", "echo three"),
            task("", ""),
        ],
    };
    let error = validate_config(&cfg).expect_err("issues are reported");
    assert_eq!(
        error.message(),
        "invalid configuration:\n\
         - task at position 1 has an empty name\n\
         - task 'a' has an empty command\n\
         - duplicate task name 'a'\n\
         - task at position 4 has an empty name\n\
         - task '' has an empty command"
    );
}

#[test]
fn blank_names_are_not_duplicates() {
    let cfg = Config {
        tasks: vec![task(" ", "echo one"), task(" ", "echo two")],
    };
    let error = validate_config(&cfg).expect_err("blank names are refused");
    assert_eq!(
        error,
        ConfigError::Invalid(vec![
            "task at position 1 has an empty name".to_owned(),
            "task at position 2 has an empty name".to_owned(),
        ])
    );
}

#[test]
fn names_are_compared_untrimmed() {
    let cfg = Config {
        tasks: vec![task("x", "echo one"), task(" x", "echo two")],
    };
    assert_eq!(validate_config(&cfg), Ok(()));
}

#[test]
fn twelfth_position_is_numbered_in_decimal() {
    let mut tasks = Vec::new();
    for i in 0..11 {
        tasks.push(task(&format!("t{i}"), "true"));
    }
    tasks.push(task("\u{3000}", "true"));
    let cfg = Config { tasks };
    let error = validate_config(&cfg).expect_err("blank name");
    assert_eq!(
        error.message(),
        "invalid configuration:\n- task at position 12 has an empty name"
    );
}
