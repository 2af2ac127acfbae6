use shellops::build::{
    build, build_env, build_order, build_title, compose_files, computed_values, declared_args, docker_build_args,
    dockerfile_path, image_prefix, merged_value, plan, secret_env, secret_names, service_of,
    sort_files, BuildError, BuildPlan,
};
use shellops::compose::EnvBinding;
use shellops::vars::Vars;

fn vars(entries: &[(&str, &str)]) -> Vars {
    let mut map = Vars::new();
    for (name, value) in entries {
        map.insert(name.to_string(), value.to_string());
    }
    map
}

fn files(entries: &[(&str, &str)]) -> Vec<(String, String)> {
    entries
        .iter()
        .map(|(name, body)| (name.to_string(), body.to_string()))
        .collect()
}

fn strings(list: &[&str]) -> Vec<String> {
    list.iter().map(|item| item.to_string()).collect()
}

#[test]
fn bundler_is_built_before_images_that_copy_it() {
    let files = vec![
        (
            "php".to_string(),
            "FROM example/bundler:latest AS bundler\nFROM example/vue:latest AS vue\n".to_string(),
        ),
        (
            "vue".to_string(),
            "FROM example/bundler:latest AS bundler\n".to_string(),
        ),
        ("bundler".to_string(), "FROM alpine:latest\n".to_string()),
    ];
    assert_eq!(build_order(&files).unwrap(), vec!["bundler", "vue", "php"]);
}

#[test]
fn build_args_keep_only_declared_names() {
    let body = "ARG FOO\nARG UID=1000\nARG VERSION\nRUN echo hi\n";
    assert_eq!(declared_args(body), vec!["FOO", "UID", "VERSION"]);
    let proc = vars(&[("FOO", "from-env")]);
    let dotenv = vars(&[("FOO", "from-file"), ("SECRET", "nope")]);
    let computed = vars(&[("UID", "501"), ("VERSION", "latest")]);
    assert_eq!(
        merged_value("FOO", &proc, &dotenv, &computed).as_deref(),
        Some("from-env")
    );
    assert_eq!(
        merged_value("UID", &Vars::new(), &dotenv, &computed).as_deref(),
        Some("501")
    );
    assert_eq!(
        merged_value("SECRET", &Vars::new(), &dotenv, &computed).as_deref(),
        Some("nope")
    );
    let declared = declared_args(body);
    let selected: Vec<_> = declared
        .iter()
        .filter_map(|name| {
            merged_value(name, &proc, &dotenv, &computed).map(|value| (name.clone(), value))
        })
        .collect();
    assert!(selected.iter().any(|(key, _)| key == "FOO"));
    assert!(!selected.iter().any(|(key, _)| key == "SECRET"));
}

#[test]
fn prefix_comes_from_the_service_image() {
    assert_eq!(
        compose_files(true),
        vec!["compose.override.yml", "compose.yml", "compose.prod.yml"]
    );
    let text = "services:\n  php:\n    image: login.example/php:${VERSION:-latest}\n  redis:\n    image: redis:alpine\n";
    assert_eq!(
        image_prefix(&[text.to_string()], &["php".to_string(), "vue".to_string()]),
        "login.example"
    );
}

#[test]
fn secrets_file_yields_names_only() {
    assert_eq!(
        secret_names("# comment\nNPM_TOKEN=super-secret\n\n"),
        vec!["NPM_TOKEN".to_string()]
    );
}

#[test]
fn build_orders_images_and_filters_args() {
    let override_text = "services:\n  php:\n    image: login.example/php:${VERSION:-latest}\n  vue:\n    image: login.example/vue:latest\n  bundler:\n    image: login.example/bundler:latest\n";
    let compose_text = "services:\n  php:\n    image: example/php:latest\n";
    let dotenv = vars(&[
        ("APP_ENV", "dev"),
        ("SHELLOPS_FIXTURE_FOO", "from-dotenv"),
        ("SECRET", "hidden-secret"),
    ]);
    let computed = computed_values(501, 20, None, None, "latest".to_string());
    let sorted = sort_files(files(&[
        (
            "vue",
            "FROM login.example/bundler:latest AS bundler\nARG SHELLOPS_FIXTURE_FOO\n",
        ),
        (
            "php",
            "FROM login.example/bundler:latest AS bundler\nFROM login.example/vue:latest AS vue\nARG BAR\nARG UID\n",
        ),
        (
            "bundler",
            "FROM alpine:latest\nARG SHELLOPS_FIXTURE_FOO\nARG UID\n",
        ),
    ]));
    let names: Vec<&str> = sorted.iter().map(|(name, _)| name.as_str()).collect();
    assert_eq!(names, vec!["bundler", "php", "vue"]);
    let plan = plan(
        &sorted,
        &strings(&[override_text, compose_text]),
        &Vars::new(),
        &dotenv,
        &computed,
        "NPM_TOKEN=super-secret-value\n",
    )
    .unwrap();
    let builds = build(&plan).unwrap();
    let tags: Vec<&str> = builds
        .iter()
        .filter_map(|args| {
            args.windows(2)
                .find(|pair| pair[0] == "-t")
                .map(|pair| pair[1].as_str())
        })
        .collect();
    assert_eq!(
        tags,
        vec![
            "login.example/bundler:latest",
            "login.example/vue:latest",
            "login.example/php:latest",
        ]
    );
    let bundler = &builds[0];
    assert!(bundler
        .iter()
        .any(|arg| arg == "SHELLOPS_FIXTURE_FOO=from-dotenv"));
    assert!(bundler.iter().any(|arg| arg.starts_with("UID=")));
    assert!(!bundler
        .iter()
        .any(|arg| arg.contains("hidden-secret") || arg.starts_with("SECRET=")));
    assert!(bundler
        .iter()
        .any(|arg| arg == "id=NPM_TOKEN,env=NPM_TOKEN"));
    assert!(!builds
        .iter()
        .flatten()
        .any(|arg| arg.contains("super-secret-value")));
    let php = &builds[2];
    assert!(!php.iter().any(|arg| arg.starts_with("BAR=")));
    assert!(!php
        .iter()
        .any(|arg| arg.starts_with("SHELLOPS_FIXTURE_FOO=")));
    assert_eq!(
        docker_build_args(&plan.services[2]),
        vec![
            "build",
            "--secret",
            "id=NPM_TOKEN,env=NPM_TOKEN",
            "--build-arg",
            "UID=501",
            "-t",
            "login.example/php:latest",
            "-f",
            "php.Dockerfile",
            ".",
        ]
    );
}

#[test]
fn a_cycle_has_no_order() {
    let files = files(&[("a", "FROM x/b:latest\n"), ("b", "FROM x/a:latest\n")]);
    assert_eq!(build_order(&files), Err(BuildError::Cycle));
    assert_eq!(
        BuildError::Cycle.message("/work"),
        "Dockerfile references contain a cycle"
    );
}

#[test]
fn independent_images_are_built_by_name() {
    let files = files(&[("b", "FROM scratch\n"), ("a", "FROM scratch\n")]);
    assert_eq!(build_order(&files).unwrap(), vec!["a", "b"]);
}

#[test]
fn nothing_is_built_without_services_or_prefix() {
    let none = BuildPlan {
        prefix: "x".to_string(),
        services: Vec::new(),
    };
    assert_eq!(build(&none), Err(BuildError::NoServices));
    assert_eq!(
        BuildError::NoServices.message("/work"),
        "no *.Dockerfile files in /work"
    );
    let bare = plan(
        &files(&[("php", "FROM scratch\n")]),
        &[],
        &Vars::new(),
        &Vars::new(),
        &Vars::new(),
        "",
    )
    .unwrap();
    assert_eq!(bare.services[0].tag, "php:latest");
    assert_eq!(build(&bare), Err(BuildError::NoPrefix));
    assert_eq!(
        BuildError::NoPrefix.message("/work"),
        "could not find an image prefix in the compose files"
    );
}

#[test]
fn services_are_named_by_their_files() {
    assert_eq!(service_of("php.Dockerfile").as_deref(), Some("php"));
    assert_eq!(service_of(".Dockerfile"), None);
    assert_eq!(service_of("Dockerfile"), None);
    assert_eq!(dockerfile_path("/work", "php"), "/work/php.Dockerfile");
}

#[test]
fn sorting_keeps_the_order_of_equal_names() {
    let sorted = sort_files(files(&[("b", "1"), ("a", "2"), ("b", "3"), ("a", "4")]));
    assert_eq!(sorted, files(&[("a", "2"), ("a", "4"), ("b", "1"), ("b", "3")]));
}

#[test]
fn computed_values_prefer_the_user() {
    let both = computed_values(
        1,
        2,
        Some("ann".to_string()),
        Some("bob".to_string()),
        "3".to_string(),
    );
    assert_eq!(both.get("USER").as_deref(), Some("ann"));
    assert_eq!(both.get("UID").as_deref(), Some("1"));
    assert_eq!(both.get("GID").as_deref(), Some("2"));
    assert_eq!(both.get("VERSION").as_deref(), Some("3"));
    let other = computed_values(1, 2, Some(String::new()), Some("bob".to_string()), String::new());
    assert_eq!(other.get("USER").as_deref(), Some("bob"));
    assert_eq!(computed_values(1, 2, None, None, String::new()).get("USER"), None);
}

#[test]
fn builds_have_an_environment_of_their_own() {
    let injected = vec![EnvBinding {
        key: "UID".to_string(),
        value: "501".to_string(),
    }];
    let bindings: Vec<(String, String)> = build_env(injected, files(&[("TOKEN", "x")]))
        .into_iter()
        .map(|binding| (binding.key, binding.value))
        .collect();
    assert_eq!(
        bindings,
        files(&[
            ("DOCKER_BUILDKIT", "1"),
            ("COMPOSE_DOCKER_CLI_BUILD", "1"),
            ("UID", "501"),
            ("TOKEN", "x"),
        ])
    );
    assert_eq!(build_title("php"), "Building php");
}

#[test]
fn secrets_keep_their_values_for_docker() {
    assert_eq!(
        secret_env("# no\nA=1=2\n B = x\n1X=no\nEMPTY=\n"),
        files(&[("A", "1=2"), ("B", " x"), ("EMPTY", "")])
    );
    assert_eq!(secret_names("A=1\nA=2\nEMPTY=\n"), vec!["A"]);
}
