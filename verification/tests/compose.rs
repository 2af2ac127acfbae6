use shellops::build::{BuildPlan, ServicePlan};
use shellops::command::{exit_code, next_step, Next, Output};
use shellops::compose::{
    after_offer, compose, env_login, env_missing, id_login, injected_env, inspect, list_services,
    local_images, missing_message, offers_build, services, ComposeError, Offer,
};
use shellops::project::Project;

fn project(dev: bool) -> Project {
    Project {
        root: "/work".to_string(),
        app_env: if dev { "dev" } else { "prod" }.to_string(),
        dev,
    }
}

fn output(code: Option<i32>, stdout: &str, stderr: &str) -> Output {
    Output {
        code,
        stdout: stdout.to_string(),
        stderr: stderr.to_string(),
    }
}

#[test]
fn injection_skips_values_that_are_already_set() {
    let keys: Vec<_> = injected_env(
        Some("9".to_string()),
        None,
        None,
        501,
        20,
        Some("ann".to_string()),
    )
    .into_iter()
    .map(|item| item.key)
    .collect();
    assert!(!keys.iter().any(|key| key == "UID"));
}

#[test]
fn compose_injects_uid_gid_and_user() {
    let bindings: Vec<(String, String)> =
        injected_env(None, Some(String::new()), None, 501, 20, Some("ann".to_string()))
            .into_iter()
            .map(|item| (item.key, item.value))
            .collect();
    assert_eq!(
        bindings,
        vec![
            ("UID".to_string(), "501".to_string()),
            ("GID".to_string(), "20".to_string()),
            ("USER".to_string(), "ann".to_string()),
        ]
    );
    let run = compose(&project(false), &["up".to_string()]);
    assert_eq!(run.program, "docker");
    assert_eq!(run.args, vec!["compose", "up"]);
    assert_eq!(run.dir, "/work");
}

#[test]
fn an_unknown_user_is_not_injected() {
    let bindings = injected_env(
        Some("1".to_string()),
        Some("2".to_string()),
        None,
        501,
        20,
        None,
    );
    assert!(bindings.is_empty());
    assert!(env_missing(&None));
    assert!(env_missing(&Some(String::new())));
    assert!(!env_missing(&Some("x".to_string())));
}

#[test]
fn the_login_comes_from_the_environment_or_from_id() {
    assert_eq!(
        env_login(Some(String::new()), Some("bob".to_string())).as_deref(),
        Some("bob")
    );
    assert_eq!(
        id_login(&output(Some(0), " ann\n", "")).as_deref(),
        Some("ann")
    );
    assert_eq!(id_login(&output(Some(1), "ann", "")), None);
    assert_eq!(id_login(&output(Some(0), "  \n", "")), None);
}

#[test]
fn services_are_the_lines_of_the_answer() {
    let listing = list_services(&project(true));
    assert_eq!(listing.args, vec!["compose", "config", "--services"]);
    assert_eq!(
        services(&output(Some(0), "php\n\n redis \n", "")).unwrap(),
        vec!["php", "redis"]
    );
    let error = services(&output(Some(1), "", " no file \n")).unwrap_err();
    assert_eq!(error, ComposeError::NoServices("no file".to_string()));
    assert_eq!(
        error.message(),
        "docker compose config --services failed: no file"
    );
}

fn plan(prefix: &str) -> BuildPlan {
    let service = |name: &str| ServicePlan {
        name: name.to_string(),
        dockerfile: format!("{name}.Dockerfile"),
        args: Vec::new(),
        secrets: Vec::new(),
        tag: String::new(),
    };
    BuildPlan {
        prefix: prefix.to_string(),
        services: vec![service("php"), service("vue")],
    }
}

#[test]
fn missing_images_are_offered_in_development() {
    assert!(offers_build(&project(true), true));
    assert!(!offers_build(&project(true), false));
    assert!(!offers_build(&project(false), true));
    assert_eq!(
        local_images(&plan("login.example")),
        vec!["login.example/php:latest", "login.example/vue:latest"]
    );
    assert!(local_images(&plan("")).is_empty());
    assert_eq!(
        inspect(&project(true), "x/php:latest").args,
        vec!["image", "inspect", "x/php:latest"]
    );
    assert_eq!(
        missing_message(&["a".to_string(), "b".to_string()]),
        "local image missing: a, b"
    );
}

#[test]
fn a_declined_or_failed_build_stops_the_command() {
    assert_eq!(after_offer(Offer::Built(0)), Ok(()));
    assert_eq!(after_offer(Offer::Built(3)), Err(ComposeError::BuildFailed));
    assert_eq!(after_offer(Offer::Declined), Err(ComposeError::ImageMissing));
    assert_eq!(ComposeError::BuildFailed.message(), "build failed");
    assert_eq!(ComposeError::ImageMissing.message(), "local image is missing");
}

#[test]
fn scripts_stop_at_the_first_failure() {
    let codes = [0, 0, 7, 0];
    let mut done = 0;
    let mut last = 0;
    let code = loop {
        match next_step(codes.len(), done, last) {
            Next::Run(i) => {
                last = codes[i];
                done += 1;
            }
            Next::Stop(code) => break code,
        }
    };
    assert_eq!(code, 7);
    assert_eq!(done, 3);
    assert_eq!(next_step(2, 2, 0), Next::Stop(0));
    assert_eq!(exit_code(None), 1);
    assert_eq!(exit_code(Some(4)), 4);
}
