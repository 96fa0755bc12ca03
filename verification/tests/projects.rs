use portus::projects::env::{env_overlay, load_failed_overlay, overlay_from_entries};
use portus::projects::lifecycle::{classify, ExitState, Lifecycle};
use portus::projects::parse::{
    compose_file_names, detect_package_manager, parse_compose_services, parse_package_scripts,
    script_names_of, service_keys_of, tasks_from_folder, JsonValue, YamlValue,
};
use portus::projects::registry::{
    LaunchSpec, LogSubscription, ManagedOrigin, ManagedStatus, ProjectRegistry,
    TERMINAL_STATUS_RETENTION_MS,
};
use portus::projects::spawn::RingBuffer;
use portus::projects::store::{
    append_task_to_folder, corrupt_backup_name, corrupt_notice, project_name_from_folder,
    remove_project, task_launch, upsert, load_outcome, ProjectStoreData, StoreError, StoredProjects,
    CURRENT_VERSION,
};
use portus::projects::{Project, ProjectError, Task};

// ---- lifecycle ----

const GRACE_MS: u64 = 10_000;

#[test]
fn alive_before_grace_without_port_is_starting() {
    assert_eq!(classify(2_000, GRACE_MS, ExitState::Alive, false), Lifecycle::Starting);
}

#[test]
fn alive_with_port_is_running() {
    assert_eq!(classify(2_000, GRACE_MS, ExitState::Alive, true), Lifecycle::Running);
}

#[test]
fn alive_after_grace_without_port_is_running_no_port() {
    assert_eq!(classify(11_000, GRACE_MS, ExitState::Alive, false), Lifecycle::RunningNoPort);
}

#[test]
fn clean_exit_is_exited() {
    assert_eq!(classify(1_000, GRACE_MS, ExitState::Exited(0), false), Lifecycle::Exited);
}

#[test]
fn nonzero_exit_is_crashed() {
    assert_eq!(classify(1_000, GRACE_MS, ExitState::Exited(1), false), Lifecycle::Crashed);
}

#[test]
fn signal_termination_is_exited_not_crashed() {
    assert_eq!(classify(1_000, GRACE_MS, ExitState::Signaled, false), Lifecycle::Exited);
}

#[test]
fn grace_boundary_switches_to_running_no_port() {
    assert_eq!(classify(9_999, GRACE_MS, ExitState::Alive, false), Lifecycle::Starting);
    assert_eq!(classify(10_000, GRACE_MS, ExitState::Alive, false), Lifecycle::RunningNoPort);
    assert_eq!(classify(99_999, GRACE_MS, ExitState::Exited(0), true), Lifecycle::Exited);
    assert_eq!(classify(0, GRACE_MS, ExitState::Exited(-1), true), Lifecycle::Crashed);
}

// ---- parse ----

#[test]
fn parses_package_json_scripts_into_tasks() {
    let json = r#"{ "scripts": { "dev": "vite", "build": "vite build" } }"#;
    let mut tasks = parse_package_scripts(json, "npm");
    tasks.sort_by(|a, b| a.0.cmp(&b.0));
    assert_eq!(
        tasks,
        vec![
            ("build".to_string(), "npm run build".to_string()),
            ("dev".to_string(), "npm run dev".to_string()),
        ]
    );
}

#[test]
fn package_json_without_scripts_yields_nothing() {
    assert!(parse_package_scripts(r#"{ "name": "x" }"#, "npm").is_empty());
}

#[test]
fn malformed_package_json_yields_nothing() {
    assert!(parse_package_scripts("{ not json", "npm").is_empty());
}

#[test]
fn parses_compose_service_names_with_comments() {
    let yaml = "# top comment\nservices:\n  db:\n    image: postgres\n  redis:\n    image: redis\n";
    let mut services = parse_compose_services(yaml);
    services.sort();
    assert_eq!(services, vec!["db".to_string(), "redis".to_string()]);
}

#[test]
fn compose_without_services_yields_nothing() {
    assert!(parse_compose_services("version: '3'\n").is_empty());
}

#[test]
fn package_manager_follows_the_lock_files() {
    assert_eq!(detect_package_manager(true, true), "pnpm");
    assert_eq!(detect_package_manager(false, true), "yarn");
    assert_eq!(detect_package_manager(false, false), "npm");
}

#[test]
fn scripts_that_are_not_an_object_yield_nothing() {
    assert!(parse_package_scripts(r#"{ "scripts": ["dev"] }"#, "npm").is_empty());
}

#[test]
fn script_names_come_from_the_scripts_object_only() {
    let doc = JsonValue::Object(vec![
        ("name".to_string(), JsonValue::Text("x".to_string())),
        (
            "scripts".to_string(),
            JsonValue::Object(vec![
                ("build".to_string(), JsonValue::Text("vite build".to_string())),
                ("dev".to_string(), JsonValue::Text("vite".to_string())),
            ]),
        ),
    ]);
    assert_eq!(script_names_of(&Some(doc)), Some(vec!["build".to_string(), "dev".to_string()]));
    let not_object = JsonValue::Object(vec![("scripts".to_string(), JsonValue::Null)]);
    assert_eq!(script_names_of(&Some(not_object)), None);
    assert_eq!(script_names_of(&Some(JsonValue::Array(vec![]))), None);
    assert_eq!(script_names_of(&None), None);
}

#[test]
fn service_keys_come_from_the_first_document() {
    let services = YamlValue::Hash(vec![
        (YamlValue::Integer(1), YamlValue::Null),
        (YamlValue::Text("web".to_string()), YamlValue::Null),
    ]);
    let first = YamlValue::Hash(vec![
        (YamlValue::Text("version".to_string()), YamlValue::Text("3".to_string())),
        (YamlValue::Text("services".to_string()), services),
    ]);
    let second = YamlValue::Hash(vec![(
        YamlValue::Text("services".to_string()),
        YamlValue::Hash(vec![(YamlValue::Text("other".to_string()), YamlValue::Null)]),
    )]);
    assert_eq!(
        service_keys_of(&Some(vec![first, second])),
        Some(vec![None, Some("web".to_string())])
    );
    assert_eq!(service_keys_of(&Some(vec![])), None);
    assert_eq!(service_keys_of(&Some(vec![YamlValue::Array(vec![])])), None);
    assert_eq!(service_keys_of(&None), None);
}

#[test]
fn non_string_service_keys_are_skipped() {
    let services = parse_compose_services("services:\n  1: {}\n  web: {}\n");
    assert_eq!(services, vec!["web".to_string()]);
}

#[test]
fn folder_tasks_combine_scripts_and_the_first_readable_compose_file() {
    let names = compose_file_names();
    assert_eq!(names, vec!["compose.yaml", "compose.yml", "docker-compose.yml", "docker-compose.yaml"]);
    let compose = vec![
        None,
        Some("services:\n  api: {}\n".to_string()),
        Some("services:\n  ignored: {}\n".to_string()),
        None,
    ];
    let tasks = tasks_from_folder(Some(r#"{ "scripts": { "dev": "vite" } }"#), false, true, &compose);
    assert_eq!(
        tasks,
        vec![
            Task { id: "dev".to_string(), name: "dev".to_string(), command: "yarn run dev".to_string() },
            Task {
                id: "api".to_string(),
                name: "api".to_string(),
                command: "docker compose up api".to_string()
            },
        ]
    );
    assert!(tasks_from_folder(None, false, false, &vec![None, None, None, None]).is_empty());
}

// ---- ring buffer ----

#[test]
fn ring_buffer_keeps_only_the_last_n_lines() {
    let mut buffer = RingBuffer::new(2);
    buffer.push("one".to_string());
    buffer.push("two".to_string());
    buffer.push("three".to_string());

    assert_eq!(buffer.lines(), vec!["two".to_string(), "three".to_string()]);
}

#[test]
fn ring_buffer_reports_emptiness() {
    let mut buffer = RingBuffer::new(4);
    assert!(buffer.is_empty());
    buffer.push("hi".to_string());
    assert!(!buffer.is_empty());
}

// ---- store ----

fn sample() -> ProjectStoreData {
    ProjectStoreData {
        version: 1,
        projects: vec![Project {
            id: "/Users/dev/web".to_string(),
            name: "web".to_string(),
            folder: "/Users/dev/web".to_string(),
            tasks: vec![Task {
                id: "dev".to_string(),
                name: "dev".to_string(),
                command: "pnpm dev".to_string(),
            }],
        }],
    }
}

#[test]
fn upsert_dedupes_by_folder_id() {
    let mut data = ProjectStoreData::default();
    let mut p = sample().projects.pop().unwrap();
    p.id = String::new();

    upsert(&mut data, p.clone(), "/Users/dev/web".to_string());
    upsert(&mut data, p, "/Users/dev/web".to_string());

    assert_eq!(data.projects.len(), 1);
}

#[test]
fn append_task_to_folder_preserves_existing_tasks() {
    let canonical = "/private/tmp/portus-store/web".to_string();
    let mut data = ProjectStoreData {
        version: 1,
        projects: vec![Project {
            id: canonical.clone(),
            name: "custom name".to_string(),
            folder: canonical.clone(),
            tasks: vec![Task {
                id: "dev".to_string(),
                name: "dev".to_string(),
                command: "pnpm dev".to_string(),
            }],
        }],
    };

    append_task_to_folder(&mut data, &canonical, "pnpm test".to_string());

    assert_eq!(data.projects.len(), 1);
    assert_eq!(data.projects[0].id, canonical);
    assert_eq!(data.projects[0].name, "custom name");
    assert_eq!(data.projects[0].tasks.len(), 2);
    assert_eq!(data.projects[0].tasks[0].command, "pnpm dev");
    assert_eq!(data.projects[0].tasks[1].command, "pnpm test");
}

#[test]
fn append_task_to_folder_creates_project_for_new_folder() {
    let mut data = ProjectStoreData::default();

    append_task_to_folder(&mut data, "/private/tmp/portus-store/api", "cargo run".to_string());

    assert_eq!(data.projects.len(), 1);
    assert_eq!(data.projects[0].name, "api");
    assert_eq!(data.projects[0].tasks.len(), 1);
    assert_eq!(data.projects[0].tasks[0].command, "cargo run");
}

#[test]
fn default_store_data_is_empty_at_the_current_version() {
    let data = ProjectStoreData::default();
    assert_eq!(data.version, CURRENT_VERSION);
    assert!(data.projects.is_empty());
}

#[test]
fn upsert_sets_id_and_folder_to_the_canonical_path() {
    let mut data = sample();
    let project = Project {
        id: "ignored".to_string(),
        name: "api".to_string(),
        folder: "./api".to_string(),
        tasks: vec![],
    };
    upsert(&mut data, project, "/Users/dev/api".to_string());
    assert_eq!(data.projects.len(), 2);
    assert_eq!(data.projects[1].id, "/Users/dev/api");
    assert_eq!(data.projects[1].folder, "/Users/dev/api");
    assert_eq!(data.projects[1].name, "api");

    let renamed = Project { id: String::new(), name: "website".to_string(), folder: "web".to_string(), tasks: vec![] };
    upsert(&mut data, renamed, "/Users/dev/web".to_string());
    assert_eq!(data.projects.len(), 2);
    assert_eq!(data.projects[0].name, "website");
    assert!(data.projects[0].tasks.is_empty());
}

#[test]
fn appended_tasks_get_fresh_random_ids_named_after_the_command() {
    let mut data = ProjectStoreData::default();
    append_task_to_folder(&mut data, "/srv/app", "make run".to_string());
    append_task_to_folder(&mut data, "/srv/app", "make test".to_string());
    let tasks = &data.projects[0].tasks;
    assert_eq!(tasks.len(), 2);
    assert_eq!(tasks[0].name, "make run");
    assert_eq!(tasks[0].id.len(), 36);
    assert_eq!(&tasks[0].id[14..15], "4");
    assert_ne!(tasks[0].id, tasks[1].id);
}

#[test]
fn project_name_falls_back_to_the_folder() {
    assert_eq!(project_name_from_folder("/Users/dev/web"), "web");
    assert_eq!(project_name_from_folder("/Users/dev/web/"), "web");
    assert_eq!(project_name_from_folder("/"), "/");
    assert_eq!(project_name_from_folder("/Users/.."), "/Users/..");
}

#[test]
fn removing_a_project_keeps_the_others_in_order() {
    let mut data = sample();
    upsert(&mut data, Project { id: String::new(), name: "a".to_string(), folder: "a".to_string(), tasks: vec![] }, "/a".to_string());
    upsert(&mut data, Project { id: String::new(), name: "b".to_string(), folder: "b".to_string(), tasks: vec![] }, "/b".to_string());
    remove_project(&mut data, "/a");
    let ids: Vec<&str> = data.projects.iter().map(|p| p.id.as_str()).collect();
    assert_eq!(ids, vec!["/Users/dev/web", "/b"]);
}

#[test]
fn task_launch_finds_the_folder_and_command() {
    let data = sample();
    assert_eq!(
        task_launch(&data, "/Users/dev/web", "dev"),
        Ok(("/Users/dev/web".to_string(), "pnpm dev".to_string()))
    );
    assert_eq!(task_launch(&data, "/nope", "dev"), Err("project not found".to_string()));
    assert_eq!(task_launch(&data, "/Users/dev/web", "nope"), Err("task not found".to_string()));
}

#[test]
fn store_messages_and_backup_names() {
    assert_eq!(StoreError::Write("disk full".to_string()).message(), "failed to write projects file: disk full");
    assert_eq!(StoreError::Serialize("bad".to_string()).message(), "failed to serialize projects: bad");
    let error = ProjectError::from(StoreError::Write("x".to_string()));
    assert_eq!(error.message(), "failed to write projects file: x");
    assert_eq!(corrupt_backup_name(Some("projects.json"), 1700000000), "projects.json.corrupt-1700000000");
    assert_eq!(corrupt_backup_name(None, 7), "projects.json.corrupt-7");
    assert_eq!(
        corrupt_notice("/tmp/projects.json.corrupt-7"),
        "Couldn't read saved projects; backed up to /tmp/projects.json.corrupt-7"
    );
}

// ---- env ----

#[test]
fn env_file_values_are_loaded_for_overlay() {
    let overlay = env_overlay(b"PORT=4217\nNAME=portus\n");

    assert_eq!(overlay.get("PORT"), Some("4217".to_string()));
    assert_eq!(overlay.get("NAME"), Some("portus".to_string()));
}

#[test]
fn malformed_env_file_keeps_valid_pairs_and_returns_notice() {
    let overlay = env_overlay(b"GOOD=yes\nnot valid dotenv\n");

    assert_eq!(overlay.get("GOOD"), Some("yes".to_string()));
    assert!(overlay.notice.unwrap().contains(".env"));
}

#[test]
fn later_lines_override_and_malformed_lines_are_counted() {
    let overlay = overlay_from_entries(vec![
        Some(("A".to_string(), "1".to_string())),
        None,
        Some(("B".to_string(), "2".to_string())),
        Some(("A".to_string(), "3".to_string())),
        None,
    ]);
    assert_eq!(overlay.vars.len(), 2);
    assert_eq!(overlay.get("A"), Some("3".to_string()));
    assert_eq!(overlay.get("B"), Some("2".to_string()));
    assert_eq!(overlay.notice.as_deref(), Some(".env: ignored 2 malformed lines"));

    let one = overlay_from_entries(vec![None]);
    assert_eq!(one.notice.as_deref(), Some(".env: ignored 1 malformed line"));
    assert!(one.vars.is_empty());

    let clean = overlay_from_entries(vec![Some(("X".to_string(), "y".to_string()))]);
    assert!(clean.notice.is_none());
    assert_eq!(clean.get("Z"), None);
}

#[test]
fn unreadable_env_file_gives_a_notice_and_no_vars() {
    let overlay = load_failed_overlay("permission denied");
    assert!(overlay.vars.is_empty());
    assert_eq!(overlay.notice.as_deref(), Some(".env: could not load (permission denied)"));
}

// ---- registry ----

const NOW: u64 = 1_000_000;

fn insert_for_test(registry: &mut ProjectRegistry, project_id: &str, task_id: &str, pgid: u32, age_ms: u64) -> String {
    registry.insert(
        project_id.to_string(),
        task_id.to_string(),
        LaunchSpec { command: "pnpm dev".to_string(), cwd: "/tmp/portus-test".to_string() },
        pgid,
        NOW - age_ms,
    )
}

fn insert_quick_run_for_test(registry: &mut ProjectRegistry, launch_spec: LaunchSpec, pgid: u32) -> String {
    registry.insert_quick_run(launch_spec, pgid, NOW)
}

/// Polls every run with the same exit state and no output, at `NOW`.
fn reconcile_all(registry: &mut ProjectRegistry, exit: ExitState, listener_groups: &[Option<u32>]) -> Vec<ManagedStatus> {
    let n = registry.len();
    registry.reconcile(&vec![exit; n], &listener_groups.to_vec(), &vec![Vec::new(); n], NOW)
}

#[test]
fn subscribe_logs_replays_sanitized_terminal_output() {
    let mut registry = ProjectRegistry::new(10_000);
    let run_id = insert_for_test(&mut registry, "p1", "dev", 4242, 1_000);
    let output = vec![
        "plain line".to_string(),
        "\u{1b}[32m\u{1b}[1m✓\u{1b}[22m\u{1b}[39m Ready in 179ms".to_string(),
    ];
    registry.reconcile(&vec![ExitState::Exited(0)], &vec![], &vec![output], NOW);

    let LogSubscription::Replay(batch) = registry.subscribe_logs(&run_id) else {
        panic!("expected a replay of the final output");
    };
    assert_eq!(batch.lines.len(), 2);
    assert!(batch.lines[0].html.contains("plain line"));
    assert!(batch.lines[1].html.contains("ansi-fg-green"));
    assert!(batch.lines[1].html.contains("Ready in 179ms"));
    assert!(!batch.lines.iter().any(|line| line.html.contains("\u{1b}[")));
}

#[test]
fn reconcile_marks_running_when_a_listener_pid_is_in_the_group() {
    let mut registry = ProjectRegistry::new(10_000);
    insert_for_test(&mut registry, "p1", "dev", 4242, 1_000);

    // One listener (pid 5000) whose process group is 4242.
    let statuses = reconcile_all(&mut registry, ExitState::Alive, &[Some(4242)]);

    assert_eq!(statuses.len(), 1);
    assert_eq!(statuses[0].lifecycle, Lifecycle::Running);
    assert_eq!(statuses[0].pid, 4242);
}

#[test]
fn reconcile_drops_groups_that_have_exited_cleanly() {
    let mut registry = ProjectRegistry::new(10_000);
    insert_for_test(&mut registry, "p1", "dev", 4242, 1_000);

    let statuses = reconcile_all(&mut registry, ExitState::Exited(0), &[]);

    assert_eq!(statuses[0].lifecycle, Lifecycle::Exited);
    assert!(registry.pgids().is_empty());
}

#[test]
fn reconcile_keeps_finished_groups_visible_for_later_polls() {
    let mut registry = ProjectRegistry::new(10_000);
    insert_for_test(&mut registry, "p1", "dev", 4242, 1_000);

    let first = reconcile_all(&mut registry, ExitState::Exited(1), &[]);
    let second = reconcile_all(&mut registry, ExitState::Alive, &[]);

    assert_eq!(first[0].lifecycle, Lifecycle::Crashed);
    assert_eq!(second[0].lifecycle, Lifecycle::Crashed);
}

#[test]
fn a_finished_run_stays_visible_but_inactive() {
    let mut registry = ProjectRegistry::new(10_000);
    insert_for_test(&mut registry, "p2", "api", 5151, 1_000);
    let run_id = insert_for_test(&mut registry, "p1", "dev", 4242, 1_000);
    let n = registry.len();
    let first = registry.reconcile(&vec![ExitState::Alive, ExitState::Exited(1)], &vec![], &vec![Vec::new(); n], NOW);
    assert_eq!(first[1].lifecycle, Lifecycle::Crashed);

    assert!(!registry.has_active_run(&run_id));
    assert_eq!(registry.pgid_for_run(&run_id), None);
    assert_eq!(registry.pgids(), vec![5151]);
    let spec = registry.launch_spec_for_run(&run_id).expect("the launch spec is kept");
    assert_eq!(spec.command, "pnpm dev");

    let later = registry.reconcile(&vec![ExitState::Alive, ExitState::Alive], &vec![Some(4242)], &vec![Vec::new(); 2], NOW + 59_000);
    assert_eq!(later[1].lifecycle, Lifecycle::Crashed);
}

#[test]
fn active_task_check_ignores_terminal_statuses() {
    let mut registry = ProjectRegistry::new(10_000);
    let run_id = insert_for_test(&mut registry, "p1", "dev", 4242, 1_000);

    assert!(registry.has_active_run(&run_id));
    reconcile_all(&mut registry, ExitState::Exited(0), &[]);
    assert!(!registry.has_active_run(&run_id));
}

#[test]
fn restart_purges_the_retained_terminal_entry() {
    let mut registry = ProjectRegistry::new(10_000);
    insert_for_test(&mut registry, "p1", "dev", 4242, 1_000);
    // First run crashes and is retained as a terminal status.
    reconcile_all(&mut registry, ExitState::Exited(1), &[]);

    // Restart: a fresh start for the same task replaces the terminal row
    // rather than leaving a stale duplicate that shadows the live one.
    insert_for_test(&mut registry, "p1", "dev", 5555, 0);
    let statuses = reconcile_all(&mut registry, ExitState::Alive, &[]);

    let dev: Vec<_> = statuses
        .iter()
        .filter(|s| {
            matches!(
                &s.origin,
                ManagedOrigin::Project { project_id, task_id } if project_id == "p1" && task_id == "dev"
            )
        })
        .collect();
    assert_eq!(dev.len(), 1, "restart must not leave a duplicate row");
    assert_eq!(dev[0].pid, 5555);
    assert_eq!(dev[0].lifecycle, Lifecycle::Starting);
}

#[test]
fn duplicate_task_entries_have_distinct_run_ids_and_lookup_routes_by_run_id() {
    let mut registry = ProjectRegistry::new(10_000);
    let first_run_id = insert_for_test(&mut registry, "p1", "dev", 4242, 1_000);
    let second_run_id = insert_for_test(&mut registry, "p1", "dev", 5555, 1_000);

    assert_ne!(first_run_id, second_run_id);

    let statuses = reconcile_all(&mut registry, ExitState::Alive, &[]);
    let first = statuses.iter().find(|status| status.run_id == first_run_id).unwrap();
    let second = statuses.iter().find(|status| status.run_id == second_run_id).unwrap();

    assert_eq!(first.pid, 4242);
    assert_eq!(second.pid, 5555);
    assert_eq!(registry.pgid_for_run(&first_run_id), Some(4242));
    assert_eq!(registry.pgid_for_run(&second_run_id), Some(5555));
    assert_eq!(
        first.origin,
        ManagedOrigin::Project { project_id: "p1".to_string(), task_id: "dev".to_string() }
    );
    assert_eq!(
        second.origin,
        ManagedOrigin::Project { project_id: "p1".to_string(), task_id: "dev".to_string() }
    );
}

#[test]
fn terminal_status_preserves_launch_command_and_cwd() {
    let mut registry = ProjectRegistry::new(10_000);
    insert_for_test(&mut registry, "p1", "dev", 4242, 1_000);

    let statuses = reconcile_all(&mut registry, ExitState::Exited(0), &[]);

    assert_eq!(statuses[0].lifecycle, Lifecycle::Exited);
    assert_eq!(statuses[0].launch_spec.command, "pnpm dev");
    assert_eq!(statuses[0].launch_spec.cwd, "/tmp/portus-test");
}

#[test]
fn quick_run_insert_sets_origin_launch_spec_and_distinct_run_id() {
    let mut registry = ProjectRegistry::new(10_000);
    let launch_spec = LaunchSpec { command: "pnpm dev".to_string(), cwd: "/Users/test/project".to_string() };

    let run_id = insert_quick_run_for_test(&mut registry, launch_spec.clone(), 4242);
    let statuses = reconcile_all(&mut registry, ExitState::Alive, &[]);

    assert_eq!(statuses.len(), 1);
    assert_eq!(statuses[0].run_id, run_id);
    assert_eq!(statuses[0].launch_spec, launch_spec);
    assert_eq!(statuses[0].origin, ManagedOrigin::QuickRun);
}

#[test]
fn duplicate_quick_runs_route_independently_by_run_id() {
    let mut registry = ProjectRegistry::new(10_000);
    let spec = || LaunchSpec { command: "pnpm dev".to_string(), cwd: "/tmp/portus-a".to_string() };
    let first_run_id = insert_quick_run_for_test(&mut registry, spec(), 4242);
    let second_run_id = insert_quick_run_for_test(&mut registry, spec(), 5555);

    assert_ne!(first_run_id, second_run_id);
    assert_eq!(registry.pgid_for_run(&first_run_id), Some(4242));
    assert_eq!(registry.pgid_for_run(&second_run_id), Some(5555));

    let statuses = reconcile_all(&mut registry, ExitState::Alive, &[]);
    let quick_runs: Vec<_> = statuses.iter().filter(|status| matches!(status.origin, ManagedOrigin::QuickRun)).collect();
    assert_eq!(quick_runs.len(), 2);
}

#[test]
fn launch_spec_for_run_finds_terminal_quick_runs() {
    let mut registry = ProjectRegistry::new(10_000);
    let launch_spec = LaunchSpec { command: "pnpm dev".to_string(), cwd: "/tmp/portus-a".to_string() };
    let run_id = insert_quick_run_for_test(&mut registry, launch_spec.clone(), 4242);

    reconcile_all(&mut registry, ExitState::Exited(0), &[]);

    assert_eq!(registry.launch_spec_for_run(&run_id), Some(launch_spec));
}

#[test]
fn quick_run_pgids_are_included_for_kill_on_quit() {
    let mut registry = ProjectRegistry::new(10_000);
    insert_quick_run_for_test(
        &mut registry,
        LaunchSpec { command: "pnpm dev".to_string(), cwd: "/tmp/portus-a".to_string() },
        4242,
    );

    assert_eq!(registry.pgids(), vec![4242]);
}

#[test]
fn finished_runs_are_forgotten_after_the_retention_window() {
    let mut registry = ProjectRegistry::new(10_000);
    let run_id = insert_for_test(&mut registry, "p1", "dev", 4242, 1_000);
    registry.reconcile(&vec![ExitState::Exited(0)], &vec![], &vec![vec![]], NOW);
    assert_eq!(registry.len(), 1);

    let later = NOW + TERMINAL_STATUS_RETENTION_MS - 1;
    let kept = registry.reconcile(&vec![ExitState::Alive], &vec![], &vec![vec![]], later);
    assert_eq!(kept[0].lifecycle, Lifecycle::Exited);
    assert_eq!(registry.len(), 1);

    let expired = registry.reconcile(&vec![ExitState::Alive], &vec![], &vec![vec![]], NOW + TERMINAL_STATUS_RETENTION_MS);
    assert_eq!(expired.len(), 1);
    assert_eq!(registry.len(), 0);
    assert!(matches!(registry.subscribe_logs(&run_id), LogSubscription::Unknown));
}

#[test]
fn live_runs_report_their_recent_output_and_stream_logs() {
    let mut registry = ProjectRegistry::new(10_000);
    let run_id = insert_for_test(&mut registry, "p1", "dev", 4242, 20_000);
    let statuses = registry.reconcile(&vec![ExitState::Alive], &vec![Some(1)], &vec![vec!["ready".to_string()]], NOW);
    assert_eq!(statuses[0].lifecycle, Lifecycle::RunningNoPort);
    assert_eq!(statuses[0].recent_output, vec!["ready".to_string()]);
    assert!(matches!(registry.subscribe_logs(&run_id), LogSubscription::Live));
    assert!(registry.unsubscribe_logs(&run_id));
    assert!(registry.send_input(&run_id));
    assert!(!registry.send_input("no-such-run"));
    assert_eq!(registry.active_project_run_id("p1", "dev"), Some(run_id.clone()));
    assert_eq!(registry.active_project_run_id("p1", "build"), None);
}

#[test]
fn drain_forgets_every_run_and_returns_all_groups() {
    let mut registry = ProjectRegistry::new(10_000);
    insert_for_test(&mut registry, "p1", "dev", 4242, 1_000);
    insert_for_test(&mut registry, "p1", "api", 5555, 1_000);
    registry.reconcile(&vec![ExitState::Exited(0), ExitState::Alive], &vec![], &vec![vec![], vec![]], NOW);

    assert_eq!(registry.pgids(), vec![5555]);
    assert_eq!(registry.drain(), vec![4242, 5555]);
    assert_eq!(registry.len(), 0);
}

#[test]
fn runs_list_every_run_with_its_group_in_order() {
    let mut registry = ProjectRegistry::new(10_000);
    let a = insert_for_test(&mut registry, "p1", "dev", 4242, 1_000);
    let b = insert_quick_run_for_test(
        &mut registry,
        LaunchSpec { command: "make".to_string(), cwd: "/tmp".to_string() },
        5555,
    );
    assert_eq!(registry.runs(), vec![(a, 4242), (b, 5555)]);
}

#[test]
fn load_outcome_tells_a_missing_file_from_a_corrupt_one() {
    let missing = load_outcome(StoredProjects::Missing);
    assert_eq!(missing.data, ProjectStoreData::default());
    assert_eq!(missing.notice, None);

    let mut data = ProjectStoreData::default();
    data.projects.push(Project {
        id: "p".to_string(),
        name: "api".to_string(),
        folder: "/work/api".to_string(),
        tasks: vec![],
    });
    let parsed = load_outcome(StoredProjects::Parsed(data.clone()));
    assert_eq!(parsed.data, data);
    assert_eq!(parsed.notice, None);

    let corrupt = load_outcome(StoredProjects::SetAside("/cfg/projects.json.corrupt-7".to_string()));
    assert_eq!(corrupt.data, ProjectStoreData::default());
    assert_eq!(
        corrupt.notice.as_deref(),
        Some("Couldn't read saved projects; backed up to /cfg/projects.json.corrupt-7")
    );
}
