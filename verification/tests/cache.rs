use shellops::cache::{
    clear, has_workers, phase_label, phase_message, phases_for, retry, run_phase, status_ok, Phase,
};
use shellops::project::Project;
use std::sync::atomic::{AtomicUsize, Ordering};

#[test]
fn redis_and_messenger_add_their_phases() {
    let names = vec![
        "php".to_string(),
        "redis".to_string(),
        "messenger_workers".to_string(),
    ];
    assert_eq!(
        phases_for(&names),
        vec![Phase::Cache, Phase::Redis, Phase::Runtime]
    );
    assert_eq!(
        phases_for(&["php".to_string()]),
        vec![Phase::Cache, Phase::Runtime]
    );
}

#[test]
fn retries_stop_after_three_failures() {
    let calls = AtomicUsize::new(0);
    let err = retry(|_| {
        calls.fetch_add(1, Ordering::SeqCst);
        Err::<(), String>("nope".to_string())
    })
    .unwrap_err();
    assert_eq!(calls.load(Ordering::SeqCst), 3);
    assert!(err.to_string().contains("nope"));
}

#[test]
fn a_success_ends_the_attempts() {
    let calls = AtomicUsize::new(0);
    let result = retry(|attempt| {
        calls.fetch_add(1, Ordering::SeqCst);
        if attempt < 2 {
            Err(attempt)
        } else {
            Ok(())
        }
    });
    assert_eq!(result, Ok(()));
    assert_eq!(calls.load(Ordering::SeqCst), 2);
    assert_eq!(retry(|attempt| Err(attempt)), Err(3));
}

#[test]
fn workers_are_told_by_their_service() {
    assert!(has_workers(&["messenger_workers".to_string()]));
    assert!(!has_workers(&["messenger".to_string()]));
}

fn commands(dev: bool, phase: Phase, messenger: bool) -> Vec<String> {
    let project = Project {
        root: "/work".to_string(),
        app_env: if dev { "dev" } else { "prod" }.to_string(),
        dev,
    };
    run_phase(&project, phase, messenger)
        .iter()
        .map(|run| run.args.join(" "))
        .collect()
}

#[test]
fn the_cache_phase_empties_every_cache() {
    let runs = commands(false, Phase::Cache, false);
    assert_eq!(runs.len(), 5);
    assert_eq!(runs[0], "compose exec php rm -Rf var/cache");
    assert!(runs[1].ends_with("doctrine:cache:clear-metadata --env=prod"));
    assert!(runs[2].ends_with("doctrine:cache:clear-query --env=prod"));
    assert!(runs[3].ends_with("doctrine:cache:clear-result --env=prod"));
    assert_eq!(
        runs[4],
        "compose exec -u www-data php php -d opcache.enable_cli=0 -d memory_limit=256M bin/console cache:clear --env=prod"
    );
    let dev = commands(true, Phase::Cache, false);
    assert!(!dev[4].contains("www-data"));
}

#[test]
fn the_other_phases_flush_and_reload() {
    assert_eq!(
        commands(true, Phase::Redis, true),
        vec!["compose exec redis redis-cli FLUSHALL"]
    );
    assert_eq!(
        commands(true, Phase::Runtime, false),
        vec!["compose exec php kill -USR2 1"]
    );
    assert_eq!(
        commands(true, Phase::Runtime, true)[1],
        "compose exec php php -d opcache.enable_cli=0 -d memory_limit=256M bin/console messenger:stop-worker"
    );
}

#[test]
fn failures_are_reported() {
    assert_eq!(status_ok(0), Ok(()));
    assert_eq!(status_ok(-2), Err("command exited -2".to_string()));
    assert_eq!(clear(&[Ok(()), Ok(())]), Ok(0));
    assert_eq!(
        clear(&[Ok(()), Err("first".to_string()), Err("second".to_string())]),
        Err("first".to_string())
    );
    assert_eq!(phase_label(Phase::Redis), "redis");
    assert_eq!(phase_message(Phase::Cache, None), "cache done");
    assert_eq!(
        phase_message(Phase::Runtime, Some("no".to_string())),
        "runtime failed: no"
    );
}
